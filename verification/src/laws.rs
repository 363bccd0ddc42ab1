//! What holds of the platform across operations.
use vstd::prelude::*;

use crate::model::{DaoProposal, Enrollment, PlatformStats, Reply, Role, StudentProfile};
use crate::platform::{
    course_from, enrollment_of, is_certificate, lemma_first_enrollment, lemma_first_request,
    not_enrollment_of, PlatformState,
};
use crate::principal::Principal;

verus! {

/// Assigning a role to a user makes it that user's role.
pub proof fn law_assigned_role_is_read_back(s: PlatformState, user: Principal, role: Role)
    ensures
        s.with_role(user, role).role_of(user) == role,
{
}

/// Registering never changes the role a principal is reported to hold, and
/// afterwards the principal holds a role; registering twice is registering
/// once.
pub proof fn law_register_keeps_role(s: PlatformState, p: Principal)
    ensures
        s.registered(p).role_of(p) == s.role_of(p),
        s.registered(p).roles.contains_key(p),
        s.registered(p).registered(p) == s.registered(p),
        !s.roles.contains_key(p) ==> s.registered(p).role_of(p) == Role::Guest,
{
}

/// Setting a profile makes it the principal's profile, and counts one more
/// student exactly when the principal had none.
pub proof fn law_profile_is_read_back(s: PlatformState, p: Principal, profile: StudentProfile)
    requires
        s.consistent(),
    ensures
        s.with_profile(p, profile).students[p] == profile,
        s.with_profile(p, profile).stats().total_students == (if s.students.contains_key(p) {
            s.stats().total_students
        } else {
            (s.students.dom().len() + 1) as u64
        }),
{
    if !s.students.contains_key(p) {
        assert(s.with_profile(p, profile).students.dom() =~= s.students.dom().insert(p));
    } else {
        assert(s.with_profile(p, profile).students.dom() =~= s.students.dom());
    }
}

/// A successful enrollment makes the student enrolled, and a second attempt
/// is refused as a duplicate and changes nothing.
pub proof fn law_enroll_once(s: PlatformState, p: Principal, course_id: u64)
    requires
        s.enroll_reply(p, course_id) == Reply::Enrolled,
    ensures
        s.enrolled(p, course_id).is_enrolled(course_id, p),
        s.enrolled(p, course_id).enroll_reply(p, course_id) == Reply::EnrollAlreadyEnrolled,
        s.enrolled(p, course_id).enrolled(p, course_id) == s.enrolled(p, course_id),
{
    let t = s.enrolled(p, course_id);
    assert(enrollment_of(t.enrollments[t.enrollments.len() - 1], course_id, p));
}

/// A removed student cannot enroll: from any state that lists the student
/// as removed, the request is refused and nothing changes.
pub proof fn law_removed_student_cannot_enroll(s: PlatformState, p: Principal, course_id: u64)
    requires
        s.removed.contains(p),
    ensures
        s.enroll_reply(p, course_id) == Reply::EnrollStudentRemoved,
        s.enrolled(p, course_id) == s,
{
}

/// Removing a student lists it as removed, so that it cannot enroll.
pub proof fn law_removal_lists_student(s: PlatformState, p: Principal, course_id: u64)
    ensures
        s.with_removed(p).removed.contains(p),
        s.with_removed(p).enroll_reply(p, course_id) == Reply::EnrollStudentRemoved,
        s.with_removed(p).enrolled(p, course_id) == s.with_removed(p),
{
    if !s.removed.contains(p) {
        assert(s.with_removed(p).removed[s.removed.len() as int] == p);
    }
}

/// Filtering out elements that no element matches keeps the sequence.
proof fn lemma_filter_keeps_all(xs: Seq<Enrollment>, f: spec_fn(Enrollment) -> bool)
    requires
        forall|i: int| 0 <= i < xs.len() ==> f(#[trigger] xs[i]),
    ensures
        xs.filter(f) == xs,
    decreases xs.len(),
{
    reveal(Seq::filter);
    if xs.len() > 0 {
        let t = xs.drop_last();
        assert forall|i: int| 0 <= i < t.len() implies f(#[trigger] t[i]) by {
            assert(t[i] == xs[i]);
        }
        lemma_filter_keeps_all(t, f);
        assert(xs.drop_last().push(xs.last()) =~= xs);
    }
}

/// Dropping out of a course one is not enrolled in is refused and changes
/// nothing.
pub proof fn law_drop_when_not_enrolled(s: PlatformState, p: Principal, course_id: u64)
    requires
        !s.is_enrolled(course_id, p),
    ensures
        s.drop_reply(p, course_id) == Reply::DropNotEnrolled,
        s.dropped(p, course_id) == s,
{
    assert forall|i: int| 0 <= i < s.enrollments.len() implies not_enrollment_of(course_id, p)(
        #[trigger] s.enrollments[i],
    ) by {
        if enrollment_of(s.enrollments[i], course_id, p) {
            assert(s.is_enrolled(course_id, p));
        }
    }
    lemma_filter_keeps_all(s.enrollments, not_enrollment_of(course_id, p));
    assert(s.dropped(p, course_id) =~= s);
}

/// Dropping out undoes enrolling: after a successful enrollment, dropping
/// out of the same course succeeds and gives back the state from before.
pub proof fn law_drop_undoes_enroll(s: PlatformState, p: Principal, course_id: u64)
    requires
        s.enroll_reply(p, course_id) == Reply::Enrolled,
    ensures
        s.enrolled(p, course_id).drop_reply(p, course_id) == Reply::DroppedOut,
        s.enrolled(p, course_id).dropped(p, course_id) == s,
{
    let t = s.enrolled(p, course_id);
    let f = not_enrollment_of(course_id, p);
    let e = s.new_enrollment(p, course_id);
    assert(enrollment_of(t.enrollments[t.enrollments.len() - 1], course_id, p));
    assert forall|i: int| 0 <= i < s.enrollments.len() implies f(#[trigger] s.enrollments[i]) by {
        if enrollment_of(s.enrollments[i], course_id, p) {
            assert(s.is_enrolled(course_id, p));
        }
    }
    lemma_filter_keeps_all(s.enrollments, f);
    s.enrollments.lemma_filter_push(e, f);
    assert(t.dropped(p, course_id) =~= s);
}

/// Banning an instructor bans it; banning it again is answered that it is
/// already banned and changes nothing.
pub proof fn law_ban_is_idempotent(s: PlatformState, p: Principal)
    ensures
        s.with_banned(p).banned.contains(p),
        s.with_banned(p).ban_reply(p) == Reply::InstructorAlreadyBanned,
        s.with_banned(p).with_banned(p) == s.with_banned(p),
{
    if !s.banned.contains(p) {
        assert(s.with_banned(p).banned[s.banned.len() as int] == p);
    }
}

/// Removing a student removes it; removing it again is answered that it is
/// already removed and changes nothing.
pub proof fn law_remove_is_idempotent(s: PlatformState, p: Principal)
    ensures
        s.with_removed(p).removed.contains(p),
        s.with_removed(p).remove_reply(p) == Reply::StudentAlreadyRemoved,
        s.with_removed(p).with_removed(p) == s.with_removed(p),
{
    if !s.removed.contains(p) {
        assert(s.with_removed(p).removed[s.removed.len() as int] == p);
    }
}

/// A vote on an existing proposal adds one to exactly one of its counts and
/// leaves every other proposal as it was.
pub proof fn law_vote_counts_once(s: PlatformState, index: u64, yes: bool)
    requires
        s.has_proposal(index),
        s.vote_fits(index, yes),
    ensures
        ({
            let i = (index as usize) as int;
            let before = s.proposals[i];
            let after = s.voted(index, yes).proposals[i];
            &&& s.voted(index, yes).proposals.len() == s.proposals.len()
            &&& after.text == before.text
            &&& after.yes_votes == before.yes_votes + (if yes {
                1int
            } else {
                0int
            })
            &&& after.no_votes == before.no_votes + (if yes {
                0int
            } else {
                1int
            })
            &&& forall|j: int|
                0 <= j < s.proposals.len() && j != i ==> #[trigger] s.voted(
                    index,
                    yes,
                ).proposals[j] == s.proposals[j]
        }),
{
}

/// A vote on a proposal that does not exist is refused and changes nothing.
pub proof fn law_vote_on_missing_proposal(s: PlatformState, index: u64, yes: bool)
    requires
        !s.has_proposal(index),
    ensures
        s.vote_reply(index) == Reply::VoteProposalNotFound,
        s.voted(index, yes) == s,
{
}

/// Approving a pending request files its course under the request's
/// identifier and takes exactly one request off the queue.
pub proof fn law_approve_files_course(s: PlatformState, id: u64)
    requires
        s.has_request(id),
    ensures
        s.approve_reply(id) == Reply::RequestApproved,
        s.approved(id).courses.contains_key(id),
        s.approved(id).courses[id] == course_from(s.pending[s.first_request_index(id)]),
        s.approved(id).courses[id].id == id,
        s.approved(id).pending.len() == s.pending.len() - 1,
{
    lemma_first_request(s, id);
}

/// Approving a request that is not pending is refused and changes nothing.
pub proof fn law_approve_missing_request(s: PlatformState, id: u64)
    requires
        !s.has_request(id),
    ensures
        s.approve_reply(id) == Reply::ApproveRequestNotFound,
        s.approved(id) == s,
{
}

/// Marking the same enrollment twice with the same grade is marking it
/// once.
pub proof fn law_mark_is_idempotent(
    s: PlatformState,
    caller: Principal,
    course_id: u64,
    student: Principal,
    pass: bool,
)
    ensures
        s.marked(caller, course_id, student, pass).marked(caller, course_id, student, pass)
            == s.marked(caller, course_id, student, pass),
{
    let t = s.marked(caller, course_id, student, pass);
    if s.teaches(course_id, caller) && s.is_enrolled(course_id, student) {
        lemma_first_enrollment(s, course_id, student);
        let i = s.first_enrollment_index(course_id, student);
        assert(enrollment_of(t.enrollments[i], course_id, student));
        assert(t.is_enrolled(course_id, student));
        assert forall|j: int| 0 <= j < t.enrollments.len() implies t.enrollments[j].course_id
            == s.enrollments[j].course_id && t.enrollments[j].student
            == s.enrollments[j].student by {}
        lemma_first_enrollment(t, course_id, student);
        let k = t.first_enrollment_index(course_id, student);
        if k != i {
            if k < i {
                assert(enrollment_of(s.enrollments[k], course_id, student));
                assert(s.enrolled_before(course_id, student, i));
            } else {
                assert(t.enrolled_before(course_id, student, k));
            }
        }
        assert(t.marked(caller, course_id, student, pass) =~= t);
    }
}

/// Replacing one element changes how many elements `f` holds of by what
/// `f` says of the old and the new element.
proof fn lemma_filter_len_update(
    xs: Seq<Enrollment>,
    f: spec_fn(Enrollment) -> bool,
    i: int,
    e: Enrollment,
)
    requires
        0 <= i < xs.len(),
    ensures
        xs.update(i, e).filter(f).len() == xs.filter(f).len() - (if f(xs[i]) {
            1int
        } else {
            0int
        }) + (if f(e) {
            1int
        } else {
            0int
        }),
    decreases xs.len(),
{
    let ys = xs.update(i, e);
    let t = xs.drop_last();
    assert(xs =~= t.push(xs.last()));
    t.lemma_filter_push(xs.last(), f);
    if i == xs.len() - 1 {
        assert(ys =~= t.push(e));
        t.lemma_filter_push(e, f);
    } else {
        lemma_filter_len_update(t, f, i, e);
        assert(ys =~= t.update(i, e).push(xs.last()));
        t.update(i, e).lemma_filter_push(xs.last(), f);
    }
}

/// Marking a student who had not passed as passed issues exactly one more
/// certificate; marking one who had passed as failed withdraws exactly one.
pub proof fn law_mark_moves_one_certificate(
    s: PlatformState,
    caller: Principal,
    course_id: u64,
    student: Principal,
    pass: bool,
)
    requires
        s.teaches(course_id, caller),
        s.is_enrolled(course_id, student),
    ensures
        ({
            let before = s.enrollments[s.first_enrollment_index(course_id, student)];
            let n = s.certificates().len();
            let m = s.marked(caller, course_id, student, pass).certificates().len();
            &&& pass && before.passed != Some(true) ==> m == n + 1
            &&& !pass && before.passed == Some(true) ==> m + 1 == n
            &&& pass && before.passed == Some(true) ==> m == n
            &&& !pass && before.passed != Some(true) ==> m == n
        }),
{
    lemma_first_enrollment(s, course_id, student);
    let i = s.first_enrollment_index(course_id, student);
    let e = Enrollment { passed: Some(pass), ..s.enrollments[i] };
    lemma_filter_len_update(s.enrollments, is_certificate(), i, e);
}

/// Setting the reward or the cost changes that number only.
pub proof fn law_config_setters(s: PlatformState, amount: u64)
    ensures
        s.with_reward(amount).config.reward_per_course == amount,
        s.with_reward(amount).config.cost_to_enroll == s.config.cost_to_enroll,
        s.with_cost(amount).config.cost_to_enroll == amount,
        s.with_cost(amount).config.reward_per_course == s.config.reward_per_course,
{
}

/// A new course request joins the end of the queue.
pub proof fn law_request_joins_queue(
    s: PlatformState,
    p: Principal,
    now: u64,
    title: String,
    description: String,
    instructor_name: String,
)
    ensures
        ({
            let req = PlatformState::course_request(p, now, title, description, instructor_name);
            &&& s.with_request(req).pending.len() == s.pending.len() + 1
            &&& s.with_request(req).pending.last() == req
            &&& req.id == now
            &&& req.instructor == p
        }),
{
}

/// Approving a request never takes a course away.
pub proof fn law_approve_keeps_other_courses(s: PlatformState, id: u64, k: u64)
    requires
        s.courses.contains_key(k),
    ensures
        s.approved(id).courses.contains_key(k),
{
}

/// A new proposal joins the end of the list without votes.
pub proof fn law_proposal_added_without_votes(s: PlatformState, text: String)
    ensures
        s.with_proposal(text).proposals.last() == (DaoProposal {
            text,
            yes_votes: 0,
            no_votes: 0,
        }),
        s.with_proposal(text).proposals.len() == s.proposals.len() + 1,
        s.with_proposal(text).proposals.take(s.proposals.len() as int) == s.proposals,
        forall|j: int|
            0 <= j < s.proposals.len() ==> #[trigger] s.with_proposal(text).proposals[j]
                == s.proposals[j],
{
    assert(s.with_proposal(text).proposals.take(s.proposals.len() as int) =~= s.proposals);
}

/// Every course in a consistent state is filed under its own identifier, so
/// no two courses share one.
pub proof fn law_course_ids_unique(s: PlatformState, a: u64, b: u64)
    requires
        s.consistent(),
        s.courses.contains_key(a),
        s.courses.contains_key(b),
        a != b,
    ensures
        s.courses[a] != s.courses[b],
        s.courses[a].id == a,
{
}

/// The enrollment added by a successful enrollment is ungraded and carries
/// the student's profile name and roll number.
pub proof fn law_new_enrollment_ungraded(s: PlatformState, p: Principal, course_id: u64)
    requires
        s.enroll_reply(p, course_id) == Reply::Enrolled,
    ensures
        s.enrolled(p, course_id).enrollments.last().passed is None,
        s.enrolled(p, course_id).enrollments.last().student_name == s.students[p].name,
        s.enrolled(p, course_id).enrollments.last().roll_no == s.students[p].roll_no,
        s.enrolled(p, course_id).stats().certificates_issued == s.stats().certificates_issued,
{
    s.enrollments.lemma_filter_push(s.new_enrollment(p, course_id), is_certificate());
}

} // verus!

verus! {

/// A call that can change the platform, with its arguments.
pub enum Operation {
    Register(Principal),
    AssignRole(Principal, Role),
    SetProfile(Principal, StudentProfile),
    Enroll(Principal, u64),
    DropOut(Principal, u64),
    RequestCourse(Principal, u64, String, String, String),
    Mark(Principal, u64, Principal, bool),
    Approve(u64),
    AddProposal(String),
    Vote(u64, bool),
    Ban(Principal),
    Remove(Principal),
    SetReward(u64),
    SetCost(u64),
}

impl PlatformState {
    /// The state after `op`, as the matching method of `Platform` ensures it.
    pub open spec fn after(self, op: Operation) -> PlatformState {
        match op {
            Operation::Register(p) => self.registered(p),
            Operation::AssignRole(u, r) => self.with_role(u, r),
            Operation::SetProfile(p, profile) => self.with_profile(p, profile),
            Operation::Enroll(p, c) => self.enrolled(p, c),
            Operation::DropOut(p, c) => self.dropped(p, c),
            Operation::RequestCourse(p, now, title, description, name) => self.with_request(
                PlatformState::course_request(p, now, title, description, name),
            ),
            Operation::Mark(caller, c, student, pass) => self.marked(caller, c, student, pass),
            Operation::Approve(id) => self.approved(id),
            Operation::AddProposal(text) => self.with_proposal(text),
            Operation::Vote(index, yes) => self.voted(index, yes),
            Operation::Ban(p) => self.with_banned(p),
            Operation::Remove(p) => self.with_removed(p),
            Operation::SetReward(a) => self.with_reward(a),
            Operation::SetCost(a) => self.with_cost(a),
        }
    }

    /// The state after the operations `ops`, in order.
    pub open spec fn after_all(self, ops: Seq<Operation>) -> PlatformState
        decreases ops.len(),
    {
        if ops.len() == 0 {
            self
        } else {
            self.after_all(ops.drop_last()).after(ops.last())
        }
    }
}

/// No operation takes anyone off the removed or the banned list.
pub proof fn law_operation_keeps_removals_and_bans(s: PlatformState, op: Operation, p: Principal)
    ensures
        s.removed.contains(p) ==> s.after(op).removed.contains(p),
        s.banned.contains(p) ==> s.after(op).banned.contains(p),
{
    if s.removed.contains(p) {
        let i = choose|i: int| 0 <= i < s.removed.len() && s.removed[i] == p;
        assert(s.after(op).removed[i] == p);
    }
    if s.banned.contains(p) {
        let i = choose|i: int| 0 <= i < s.banned.len() && s.banned[i] == p;
        assert(s.after(op).banned[i] == p);
    }
}

/// Removals and bans last: whatever operations follow, a removed student
/// stays removed and a banned instructor stays banned.
pub proof fn law_removals_and_bans_persist(s: PlatformState, ops: Seq<Operation>, p: Principal)
    ensures
        s.removed.contains(p) ==> s.after_all(ops).removed.contains(p),
        s.banned.contains(p) ==> s.after_all(ops).banned.contains(p),
    decreases ops.len(),
{
    if ops.len() > 0 {
        law_removals_and_bans_persist(s, ops.drop_last(), p);
        law_operation_keeps_removals_and_bans(s.after_all(ops.drop_last()), ops.last(), p);
    }
}

/// A removed student can never enroll again: after the removal and any
/// operations that follow, its request to enroll in any course is refused
/// and changes nothing.
pub proof fn law_removed_student_never_enrolls(
    s: PlatformState,
    p: Principal,
    ops: Seq<Operation>,
    course_id: u64,
)
    ensures
        ({
            let t = s.with_removed(p).after_all(ops);
            &&& t.enroll_reply(p, course_id) == Reply::EnrollStudentRemoved
            &&& t.enrolled(p, course_id) == t
        }),
{
    law_removal_lists_student(s, p, course_id);
    law_removals_and_bans_persist(s.with_removed(p), ops, p);
}

/// A banned instructor can never ask for a course again: after the ban and
/// any operations that follow, it is still banned, which the course-request
/// guard refuses and `request_new_course` does not accept.
pub proof fn law_banned_instructor_stays_banned(
    s: PlatformState,
    p: Principal,
    ops: Seq<Operation>,
)
    ensures
        s.with_banned(p).after_all(ops).banned.contains(p),
{
    law_ban_is_idempotent(s, p);
    law_removals_and_bans_persist(s.with_banned(p), ops, p);
}

/// Marking as passed a student who had not passed issues one more
/// certificate and leaves the other statistics as they were (as long as the
/// count fits in a `u64`).
pub proof fn law_mark_pass_adds_certificate_to_stats(
    s: PlatformState,
    caller: Principal,
    course_id: u64,
    student: Principal,
)
    requires
        s.teaches(course_id, caller),
        s.is_enrolled(course_id, student),
        s.enrollments[s.first_enrollment_index(course_id, student)].passed != Some(true),
        s.certificates().len() < u64::MAX,
    ensures
        s.mark_reply(caller, course_id, student, true) == Reply::MarkedPassed,
        s.marked(caller, course_id, student, true).stats() == (PlatformStats {
            total_students: s.stats().total_students,
            total_courses: s.stats().total_courses,
            certificates_issued: (s.stats().certificates_issued + 1) as u64,
        }),
{
    law_mark_moves_one_certificate(s, caller, course_id, student, true);
}

} // verus!

verus! {

/// Approving request `id` takes exactly the first pending request with that
/// identifier off the queue: the requests before it stay where they were,
/// the ones after it move up by one, and every pending request with another
/// identifier is still pending.
pub proof fn law_approve_removes_only_the_approved_request(s: PlatformState, id: u64)
    requires
        s.has_request(id),
    ensures
        ({
            let i = s.first_request_index(id);
            let q = s.approved(id).pending;
            &&& 0 <= i < s.pending.len()
            &&& s.pending[i].id == id
            &&& forall|j: int| 0 <= j < i ==> s.pending[j].id != id
            &&& q.len() == s.pending.len() - 1
            &&& forall|j: int| 0 <= j < i ==> #[trigger] q[j] == s.pending[j]
            &&& forall|j: int| i < j < s.pending.len() ==> q[j - 1] == #[trigger] s.pending[j]
        }),
        forall|j: int|
            0 <= j < s.pending.len() && #[trigger] s.pending[j].id != id
                ==> s.approved(id).pending.contains(s.pending[j]),
{
    lemma_first_request(s, id);
    let i = s.first_request_index(id);
    let q = s.approved(id).pending;
    assert forall|j: int| 0 <= j < i implies s.pending[j].id != id by {
        if s.pending[j].id == id {
            assert(s.request_before(id, i));
        }
    }
    assert forall|j: int|
        0 <= j < s.pending.len() && #[trigger] s.pending[j].id != id implies q.contains(
        s.pending[j],
    ) by {
        if j < i {
            assert(q[j] == s.pending[j]);
        } else {
            assert(j != i);
            assert(q[j - 1] == s.pending[j]);
        }
    }
}

/// The statistics count approved courses only, and filing a course request
/// leaves them unchanged.
pub proof fn law_stats_count_approved_courses(s: PlatformState, req: crate::model::CourseRequest)
    ensures
        s.stats().total_courses == s.courses.dom().len() as u64,
        s.stats().total_students == s.students.dom().len() as u64,
        s.with_request(req).stats() == s.stats(),
        s.approved(req.id).stats().total_students == s.stats().total_students,
{
}

/// A student who is not removed, has a profile, asks for an existing course
/// and is not yet enrolled there is enrolled, with an ungraded enrollment
/// appended after the existing ones.
pub proof fn law_eligible_student_is_enrolled(s: PlatformState, p: Principal, course_id: u64)
    requires
        !s.removed.contains(p),
        s.students.contains_key(p),
        s.courses.contains_key(course_id),
        !s.is_enrolled(course_id, p),
    ensures
        s.enroll_reply(p, course_id) == Reply::Enrolled,
        s.enrolled(p, course_id).enrollments.len() == s.enrollments.len() + 1,
        s.enrolled(p, course_id).enrollments.take(s.enrollments.len() as int) == s.enrollments,
        enrollment_of(s.enrolled(p, course_id).enrollments.last(), course_id, p),
        s.enrolled(p, course_id).enrollments.last().passed is None,
{
    assert(s.enrolled(p, course_id).enrollments.take(s.enrollments.len() as int)
        =~= s.enrollments);
}

/// Removing one student never changes what another student's request to
/// enroll is answered.
pub proof fn law_removal_concerns_only_that_student(
    s: PlatformState,
    q: Principal,
    p: Principal,
    course_id: u64,
)
    requires
        q != p,
    ensures
        s.with_removed(q).enroll_reply(p, course_id) == s.enroll_reply(p, course_id),
{
    if !s.removed.contains(q) {
        let t = s.with_removed(q);
        assert(t.removed.contains(p) ==> s.removed.contains(p)) by {
            if t.removed.contains(p) {
                let j = choose|j: int| 0 <= j < t.removed.len() && t.removed[j] == p;
                assert(j < s.removed.len());
                assert(s.removed[j] == p);
            }
        }
        assert(s.removed.contains(p) ==> t.removed.contains(p)) by {
            if s.removed.contains(p) {
                let j = choose|j: int| 0 <= j < s.removed.len() && s.removed[j] == p;
                assert(t.removed[j] == p);
            }
        }
        assert(t.enrollments == s.enrollments);
        assert(t.is_enrolled(course_id, p) == s.is_enrolled(course_id, p));
        assert(t.students == s.students && t.courses == s.courses);
    }
}

/// After dropping out of a course, the student is no longer enrolled in it,
/// whatever its grade, and every enrollment of someone else or in another
/// course is kept.
pub proof fn law_drop_out_leaves_course(s: PlatformState, p: Principal, course_id: u64)
    ensures
        !s.dropped(p, course_id).is_enrolled(course_id, p),
        forall|j: int|
            0 <= j < s.enrollments.len() && !enrollment_of(#[trigger] s.enrollments[j], course_id, p)
                ==> s.dropped(p, course_id).enrollments.contains(s.enrollments[j]),
{
    let f = not_enrollment_of(course_id, p);
    let t = s.dropped(p, course_id);
    assert forall|i: int| 0 <= i < t.enrollments.len() implies !enrollment_of(
        #[trigger] t.enrollments[i],
        course_id,
        p,
    ) by {
        s.enrollments.lemma_filter_pred(f, i);
    }
    assert forall|j: int|
        0 <= j < s.enrollments.len() && !enrollment_of(#[trigger] s.enrollments[j], course_id, p)
        implies t.enrollments.contains(s.enrollments[j]) by {
        s.enrollments.lemma_filter_contains(f, j);
    }
}

/// Enrolling, being graded and then dropping out gives back the enrollments
/// from before the enrollment: a grade does not keep a dropped enrollment.
pub proof fn law_drop_undoes_graded_enrollment(
    s: PlatformState,
    p: Principal,
    course_id: u64,
    instructor: Principal,
    pass: bool,
)
    requires
        s.enroll_reply(p, course_id) == Reply::Enrolled,
    ensures
        ({
            let t = s.enrolled(p, course_id).marked(instructor, course_id, p, pass);
            &&& t.drop_reply(p, course_id) == Reply::DroppedOut
            &&& t.dropped(p, course_id).enrollments == s.enrollments
        }),
{
    let e1 = s.enrolled(p, course_id);
    let n = s.enrollments.len() as int;
    let f = not_enrollment_of(course_id, p);
    assert(enrollment_of(e1.enrollments[n], course_id, p));
    assert forall|j: int| 0 <= j < n implies f(#[trigger] s.enrollments[j]) by {
        if enrollment_of(s.enrollments[j], course_id, p) {
            assert(s.is_enrolled(course_id, p));
        }
    }
    let t = e1.marked(instructor, course_id, p, pass);
    let last = if e1.teaches(course_id, instructor) {
        lemma_first_enrollment(e1, course_id, p);
        let k = e1.first_enrollment_index(course_id, p);
        if k != n {
            assert(e1.enrollments[k] == s.enrollments[k]);
        }
        Enrollment { passed: Some(pass), ..e1.enrollments[n] }
    } else {
        e1.enrollments[n]
    };
    assert(t.enrollments =~= s.enrollments.push(last));
    assert(enrollment_of(t.enrollments[n], course_id, p));
    lemma_filter_keeps_all(s.enrollments, f);
    s.enrollments.lemma_filter_push(last, f);
}

} // verus!
