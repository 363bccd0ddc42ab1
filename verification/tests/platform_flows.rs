use educhain_backend::model::{Denial, Role};
use educhain_backend::platform::Platform;
use educhain_backend::principal::{BadPrincipal, Principal};

fn id(b: u8) -> Principal {
    Principal::from_slice(&[b, b, b]).unwrap()
}

fn setup() -> (Platform, Principal, Principal, Principal) {
    let admin = id(1);
    let prof = id(2);
    let stu = id(3);
    let p = Platform::init(&admin);
    (p, admin, prof, stu)
}

/// A platform with one approved course (id 77) taught by `prof`.
fn with_course() -> (Platform, Principal, Principal, Principal) {
    let (mut p, admin, prof, stu) = setup();
    p.request_new_course(&prof, 77, "Rust".to_string(), "Intro".to_string(), "Dr P".to_string());
    assert_eq!(
        p.approve_course_request(&admin, 77),
        "Course request approved and course added."
    );
    (p, admin, prof, stu)
}

#[test]
fn principal_from_slice_accepts_up_to_29_bytes() {
    let bytes: Vec<u8> = (0..29).collect();
    let p = Principal::from_slice(&bytes).unwrap();
    assert_eq!(p.as_bytes(), bytes);
    let long: Vec<u8> = (0..30).collect();
    assert_eq!(Principal::from_slice(&long).unwrap_err(), BadPrincipal::BytesTooLong);
    let empty = Principal::from_slice(&[]).unwrap();
    assert_eq!(empty.as_bytes(), Vec::<u8>::new());
}

#[test]
fn anonymous_principal_is_the_byte_four() {
    let anon = Principal::anonymous();
    assert_eq!(anon.as_bytes(), vec![4u8]);
    assert!(anon.is_anonymous());
    assert!(Principal::from_slice(&[4]).unwrap().is_anonymous());
    assert!(!Principal::from_slice(&[4, 0]).unwrap().is_anonymous());
    assert!(!id(1).is_anonymous());
}

#[test]
fn principal_equality_is_by_bytes() {
    assert!(id(5) == id(5));
    assert!(id(5) != id(6));
    assert!(Principal::from_slice(&[1]).unwrap() != Principal::from_slice(&[1, 0]).unwrap());
}

#[test]
fn deployer_becomes_admin_others_are_guests() {
    let (p, admin, _prof, stu) = setup();
    assert_eq!(p.my_role(&admin), Role::Admin);
    assert_eq!(p.my_role(&stu), Role::Guest);
    assert!(p.is_admin(&admin));
    assert!(!p.is_admin(&stu));
    assert_eq!(p.list_principals(), vec![admin]);
}

#[test]
fn fresh_platform_has_default_config_and_nothing_else() {
    let p = Platform::new();
    let c = p.token_config();
    assert_eq!(c.reward_per_course, 10);
    assert_eq!(c.cost_to_enroll, 5);
    assert!(p.browse_courses().is_empty());
    assert!(p.view_dao_proposals().is_empty());
    assert!(p.list_principals().is_empty());
    let s = p.get_platform_stats();
    assert_eq!((s.total_students, s.total_courses, s.certificates_issued), (0, 0, 0));
}

#[test]
fn register_keeps_existing_role() {
    let (mut p, admin, _prof, stu) = setup();
    p.register_user(&stu);
    assert_eq!(p.my_role(&stu), Role::Guest);
    p.register_user(&admin);
    assert_eq!(p.my_role(&admin), Role::Admin);
    p.assign_role(&admin, &stu, Role::Student);
    p.register_user(&stu);
    assert_eq!(p.my_role(&stu), Role::Student);
}

#[test]
fn assign_role_then_list_users() {
    let (mut p, admin, prof, stu) = setup();
    p.assign_role(&admin, &prof, Role::Professor);
    p.assign_role(&admin, &stu, Role::Student);
    p.assign_role(&admin, &stu, Role::Guest);
    let users = p.list_users(&admin);
    assert_eq!(users.len(), 3);
    assert!(users.contains(&(admin, Role::Admin)));
    assert!(users.contains(&(prof, Role::Professor)));
    assert!(users.contains(&(stu, Role::Guest)));
    assert_eq!(p.my_role(&prof), Role::Professor);
}

#[test]
fn guards_refuse_as_the_canister_does() {
    let (mut p, admin, prof, stu) = setup();
    let anon = Principal::anonymous();
    assert_eq!(p.admin_guard(&admin), Ok(()));
    assert_eq!(p.admin_guard(&anon), Err(Denial::AnonymousAdmin));
    assert_eq!(p.admin_guard(&stu), Err(Denial::NotAdmin));
    assert_eq!(Denial::AnonymousAdmin.text(), "Authentication required: Caller is anonymous.");
    assert_eq!(Denial::NotAdmin.text(), "Authorization failed: Only admins can call this method.");
    assert_eq!(Platform::registration_guard(&anon), Err(Denial::AnonymousRegistration));
    assert_eq!(Denial::AnonymousRegistration.text(), "Cannot register with an anonymous principal.");
    assert_eq!(Platform::caller_guard(&anon), Err(Denial::Anonymous));
    assert_eq!(Platform::caller_guard(&stu), Ok(()));
    assert_eq!(Denial::Anonymous.text(), "Authentication required.");
    assert_eq!(p.course_request_guard(&prof), Ok(()));
    p.ban_instructor(&admin, &prof);
    assert_eq!(p.course_request_guard(&prof), Err(Denial::BannedInstructor));
    assert_eq!(p.course_request_guard(&anon), Err(Denial::Anonymous));
    assert_eq!(Denial::BannedInstructor.text(), "Course request failed: You are a banned instructor.");
    assert_eq!(p.enrolled_students_guard(&prof, 1), Err(Denial::NotInstructor));
    assert_eq!(Denial::NotInstructor.text(), "Access denied: You are not the instructor of this course.");
}

#[test]
fn admin_assigned_to_anonymous_still_refused() {
    let (mut p, admin, _prof, _stu) = setup();
    let anon = Principal::anonymous();
    p.assign_role(&admin, &anon, Role::Admin);
    assert!(p.is_admin(&anon));
    assert_eq!(p.admin_guard(&anon), Err(Denial::AnonymousAdmin));
}

#[test]
fn course_request_uses_time_as_id_and_waits_for_approval() {
    let (mut p, admin, prof, _stu) = setup();
    let req = p.request_new_course(&prof, 1234, "T".to_string(), "D".to_string(), "N".to_string());
    assert_eq!(req.id, 1234);
    assert_eq!(req.instructor, prof);
    assert_eq!(req.title, "T");
    assert_eq!(req.instructor_name, "N");
    let pending = p.list_pending_requests(&admin);
    assert_eq!(pending.len(), 1);
    assert_eq!(pending[0].id, 1234);
    assert!(p.browse_courses().is_empty());
    assert_eq!(p.approve_course_request(&admin, 1234), "Course request approved and course added.");
    assert!(p.list_pending_requests(&admin).is_empty());
    let courses = p.browse_courses();
    assert_eq!(courses.len(), 1);
    assert_eq!(courses[0].id, 1234);
    assert_eq!(courses[0].title, "T");
    assert_eq!(courses[0].description, "D");
    assert_eq!(courses[0].instructor, prof);
    assert_eq!(p.approve_course_request(&admin, 1234), "Approval failed: Course request not found.");
}

#[test]
fn approve_takes_the_first_request_with_the_id() {
    let (mut p, admin, prof, stu) = setup();
    p.request_new_course(&prof, 5, "first".to_string(), String::new(), String::new());
    p.request_new_course(&stu, 5, "second".to_string(), String::new(), String::new());
    p.approve_course_request(&admin, 5);
    assert_eq!(p.browse_courses()[0].title, "first");
    let pending = p.list_pending_requests(&admin);
    assert_eq!(pending.len(), 1);
    assert_eq!(pending[0].title, "second");
    p.approve_course_request(&admin, 5);
    let courses = p.browse_courses();
    assert_eq!(courses.len(), 1);
    assert_eq!(courses[0].title, "second");
    assert_eq!(courses[0].instructor, stu);
}

#[test]
fn enroll_replies_in_order_of_checks() {
    let (mut p, admin, _prof, stu) = with_course();
    assert_eq!(
        p.enroll_in_course(&stu, 77),
        "Enrollment failed: Please set up your student profile first (update_student_profile)."
    );
    assert_eq!(
        p.update_student_profile(&stu, "Sam".to_string(), "R1".to_string(), "s@x".to_string()),
        "Profile updated successfully."
    );
    assert_eq!(p.enroll_in_course(&stu, 78), "Enrollment failed: Course not found.");
    assert_eq!(p.enroll_in_course(&stu, 77), "Enrolled successfully.");
    assert_eq!(p.enroll_in_course(&stu, 77), "Enrollment failed: Already enrolled in this course.");
    assert_eq!(p.remove_student(&admin, &stu), "Student removed successfully.");
    assert_eq!(p.remove_student(&admin, &stu), "Student already removed.");
    assert_eq!(
        p.enroll_in_course(&stu, 77),
        "Enrollment failed: Student has been removed from the platform."
    );
}

#[test]
fn enrollment_carries_profile_and_is_ungraded() {
    let (mut p, _admin, prof, stu) = with_course();
    p.update_student_profile(&stu, "Sam".to_string(), "R1".to_string(), "s@x".to_string());
    p.enroll_in_course(&stu, 77);
    assert_eq!(p.enrolled_students_guard(&prof, 77), Ok(()));
    let es = p.list_enrolled_students(&prof, 77);
    assert_eq!(es.len(), 1);
    assert_eq!(es[0].course_id, 77);
    assert_eq!(es[0].student, stu);
    assert_eq!(es[0].student_name, "Sam");
    assert_eq!(es[0].roll_no, "R1");
    assert_eq!(es[0].passed, None);
}

#[test]
fn drop_out_undoes_enrollment() {
    let (mut p, _admin, prof, stu) = with_course();
    p.update_student_profile(&stu, "Sam".to_string(), "R1".to_string(), String::new());
    assert_eq!(p.drop_out_of_course(&stu, 77), "Drop out failed: Not enrolled in this course.");
    p.enroll_in_course(&stu, 77);
    assert_eq!(p.drop_out_of_course(&stu, 77), "Dropped out of course successfully.");
    assert!(p.list_enrolled_students(&prof, 77).is_empty());
    assert_eq!(p.drop_out_of_course(&stu, 77), "Drop out failed: Not enrolled in this course.");
    assert_eq!(p.enroll_in_course(&stu, 77), "Enrolled successfully.");
}

#[test]
fn marking_grades_and_counts_certificates() {
    let (mut p, _admin, prof, stu) = with_course();
    let other = id(9);
    p.update_student_profile(&stu, "Sam".to_string(), "R1".to_string(), String::new());
    p.update_student_profile(&other, "Oz".to_string(), "R2".to_string(), String::new());
    p.enroll_in_course(&stu, 77);
    p.enroll_in_course(&other, 77);
    assert_eq!(
        p.mark_pass(&stu, 77, &stu),
        "Authorization failed: You are not the instructor of this course."
    );
    assert_eq!(
        p.mark_pass(&prof, 78, &stu),
        "Authorization failed: You are not the instructor of this course."
    );
    assert_eq!(
        p.mark_pass(&prof, 77, &id(42)),
        "Marking failed: Enrollment not found for this student in this course."
    );
    assert_eq!(p.mark_pass(&prof, 77, &stu), "Student marked as passed successfully.");
    assert_eq!(p.get_platform_stats().certificates_issued, 1);
    assert_eq!(p.mark_pass(&prof, 77, &stu), "Student marked as passed successfully.");
    assert_eq!(p.get_platform_stats().certificates_issued, 1);
    assert_eq!(p.mark_fail(&prof, 77, &other), "Student marked as failed successfully.");
    assert_eq!(p.get_platform_stats().certificates_issued, 1);
    assert_eq!(p.mark_fail(&prof, 77, &stu), "Student marked as failed successfully.");
    assert_eq!(p.get_platform_stats().certificates_issued, 0);
    let es = p.list_enrolled_students(&prof, 77);
    assert_eq!(es[0].passed, Some(false));
    assert_eq!(es[1].passed, Some(false));
}

#[test]
fn stats_count_students_courses_certificates() {
    let (mut p, admin, prof, stu) = with_course();
    p.request_new_course(&prof, 88, String::new(), String::new(), String::new());
    p.approve_course_request(&admin, 88);
    p.update_student_profile(&stu, "Sam".to_string(), "R1".to_string(), String::new());
    p.update_student_profile(&stu, "Sammy".to_string(), "R1".to_string(), String::new());
    p.update_student_profile(&id(9), "Oz".to_string(), "R2".to_string(), String::new());
    p.enroll_in_course(&stu, 77);
    p.enroll_in_course(&stu, 88);
    p.mark_pass(&prof, 77, &stu);
    p.mark_pass(&prof, 88, &stu);
    let s = p.get_platform_stats();
    assert_eq!(s.total_students, 2);
    assert_eq!(s.total_courses, 2);
    assert_eq!(s.certificates_issued, 2);
    let es = p.list_enrolled_students(&prof, 77);
    assert_eq!(es[0].student_name, "Sammy");
}

#[test]
fn list_my_courses_only_lists_taught_courses() {
    let (mut p, admin, prof, stu) = with_course();
    p.request_new_course(&stu, 90, "Other".to_string(), String::new(), String::new());
    p.approve_course_request(&admin, 90);
    p.request_new_course(&prof, 91, "Second".to_string(), String::new(), String::new());
    p.approve_course_request(&admin, 91);
    let mut mine: Vec<u64> = p.list_my_courses(&prof).iter().map(|c| c.id).collect();
    mine.sort();
    assert_eq!(mine, vec![77, 91]);
    let theirs: Vec<u64> = p.list_my_courses(&stu).iter().map(|c| c.id).collect();
    assert_eq!(theirs, vec![90]);
    assert!(p.list_my_courses(&admin).is_empty());
    let mut all: Vec<u64> = p.browse_courses().iter().map(|c| c.id).collect();
    all.sort();
    assert_eq!(all, vec![77, 90, 91]);
}

#[test]
fn proposals_collect_votes() {
    let (mut p, admin, _prof, stu) = setup();
    assert_eq!(p.add_dao_proposal(&admin, "More courses".to_string()), "DAO proposal added successfully.");
    assert_eq!(p.vote_on_proposal(&stu, 0, true), "Vote cast successfully.");
    assert_eq!(p.vote_on_proposal(&admin, 0, true), "Vote cast successfully.");
    assert_eq!(p.vote_on_proposal(&stu, 0, false), "Vote cast successfully.");
    assert_eq!(p.vote_on_proposal(&stu, 1, false), "Voting failed: Proposal not found.");
    let props = p.view_dao_proposals();
    assert_eq!(props.len(), 1);
    assert_eq!(props[0].text, "More courses");
    assert_eq!(props[0].yes_votes, 2);
    assert_eq!(props[0].no_votes, 1);
    assert_eq!(p.vote_guard(&stu, 0, true), Ok(()));
    assert_eq!(p.vote_guard(&stu, 7, true), Ok(()));
    assert_eq!(p.vote_guard(&Principal::anonymous(), 0, true), Err(Denial::Anonymous));
}

#[test]
fn vote_index_past_u32_on_64_bit_is_not_found() {
    let (mut p, admin, _prof, stu) = setup();
    p.add_dao_proposal(&admin, "x".to_string());
    assert_eq!(p.vote_on_proposal(&stu, u64::MAX, true), "Voting failed: Proposal not found.");
}

#[test]
fn ban_is_idempotent() {
    let (mut p, admin, prof, _stu) = setup();
    assert_eq!(p.ban_instructor(&admin, &prof), "Instructor banned successfully.");
    assert_eq!(p.ban_instructor(&admin, &prof), "Instructor already banned.");
    assert_eq!(p.course_request_guard(&prof), Err(Denial::BannedInstructor));
}

#[test]
fn token_config_setters() {
    let (mut p, admin, _prof, _stu) = setup();
    assert_eq!(p.set_token_reward(&admin, 42), "Token reward per course set successfully.");
    assert_eq!(p.token_config().reward_per_course, 42);
    assert_eq!(p.token_config().cost_to_enroll, 5);
    assert_eq!(p.set_cost_to_enroll(&admin, 7), "Cost to enroll set successfully.");
    assert_eq!(p.token_config().cost_to_enroll, 7);
    assert_eq!(p.token_config().reward_per_course, 42);
}

#[test]
fn count_overflow_denial_text() {
    assert_eq!(Denial::CountOverflow.text(), "attempt to add with overflow");
}

#[test]
fn removal_and_ban_last_through_later_calls() {
    let (mut p, admin, prof, stu) = with_course();
    p.remove_student(&admin, &stu);
    p.ban_instructor(&admin, &prof);
    p.assign_role(&admin, &stu, Role::Student);
    p.register_user(&stu);
    p.update_student_profile(&stu, "Sam".to_string(), "R1".to_string(), String::new());
    p.remove_student(&admin, &stu);
    p.ban_instructor(&admin, &prof);
    p.add_dao_proposal(&admin, "x".to_string());
    p.vote_on_proposal(&stu, 0, true);
    p.request_new_course(&stu, 99, String::new(), String::new(), String::new());
    p.approve_course_request(&admin, 99);
    assert_eq!(
        p.enroll_in_course(&stu, 77),
        "Enrollment failed: Student has been removed from the platform."
    );
    assert_eq!(
        p.enroll_in_course(&stu, 99),
        "Enrollment failed: Student has been removed from the platform."
    );
    assert!(p.list_enrolled_students(&prof, 77).is_empty());
    assert_eq!(p.course_request_guard(&prof), Err(Denial::BannedInstructor));
}

#[test]
fn mark_pass_adds_one_certificate_to_stats() {
    let (mut p, _admin, prof, stu) = with_course();
    p.update_student_profile(&stu, "Sam".to_string(), "R1".to_string(), String::new());
    p.enroll_in_course(&stu, 77);
    let before = p.get_platform_stats();
    assert_eq!(p.mark_pass(&prof, 77, &stu), "Student marked as passed successfully.");
    let after = p.get_platform_stats();
    assert_eq!(after.total_students, before.total_students);
    assert_eq!(after.total_courses, before.total_courses);
    assert_eq!(after.certificates_issued, before.certificates_issued + 1);
}
