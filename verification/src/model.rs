//! The records the platform keeps, and the replies it gives.
use vstd::prelude::*;
use vstd::string::*;

use crate::principal::Principal;

verus! {

/// All possible roles a user can hold.
#[derive(Clone, Copy, Debug, PartialEq, Eq, Structural)]
pub enum Role {
    Admin,
    Student,
    Professor,
    Guest,
}

/// A student's profile information.
#[derive(Debug)]
pub struct StudentProfile {
    pub name: String,
    pub roll_no: String,
    pub email: String,
}

/// A course offered on the platform.
#[derive(Debug)]
pub struct Course {
    pub id: u64,
    pub title: String,
    pub description: String,
    /// The principal of the instructor.
    pub instructor: Principal,
}

/// A request by an instructor to add a new course.
#[derive(Debug)]
pub struct CourseRequest {
    /// The request's identifier, which becomes the course's.
    pub id: u64,
    pub title: String,
    pub description: String,
    /// The principal of the requesting instructor.
    pub instructor: Principal,
    /// The name of the requesting instructor.
    pub instructor_name: String,
}

/// A student's enrollment in a course.
#[derive(Debug)]
pub struct Enrollment {
    pub course_id: u64,
    /// The principal of the enrolled student.
    pub student: Principal,
    /// The name of the enrolled student, for display.
    pub student_name: String,
    /// The roll number of the enrolled student, for display.
    pub roll_no: String,
    /// Whether the student passed the course (`None` while not graded).
    pub passed: Option<bool>,
}

/// A proposal put to the platform's members, with its vote counts.
#[derive(Debug)]
pub struct DaoProposal {
    pub text: String,
    pub yes_votes: u32,
    pub no_votes: u32,
}

/// Configuration for token rewards and costs.
#[derive(Clone, Copy, Debug, PartialEq, Eq, Structural)]
pub struct TokenConfig {
    /// Tokens rewarded to an instructor for a course completion.
    pub reward_per_course: u64,
    /// Tokens a student needs to enroll.
    pub cost_to_enroll: u64,
}

/// Platform statistics.
#[derive(Clone, Copy, Debug, PartialEq, Eq, Structural)]
pub struct PlatformStats {
    pub total_students: u64,
    pub total_courses: u64,
    pub certificates_issued: u64,
}

impl StudentProfile {
    /// A copy of the profile.
    pub fn duplicate(&self) -> (r: StudentProfile)
        ensures
            r == *self,
    {
        StudentProfile {
            name: self.name.clone(),
            roll_no: self.roll_no.clone(),
            email: self.email.clone(),
        }
    }
}

impl Course {
    /// A copy of the course.
    pub fn duplicate(&self) -> (r: Course)
        ensures
            r == *self,
    {
        Course {
            id: self.id,
            title: self.title.clone(),
            description: self.description.clone(),
            instructor: self.instructor,
        }
    }
}

impl CourseRequest {
    /// A copy of the request.
    pub fn duplicate(&self) -> (r: CourseRequest)
        ensures
            r == *self,
    {
        CourseRequest {
            id: self.id,
            title: self.title.clone(),
            description: self.description.clone(),
            instructor: self.instructor,
            instructor_name: self.instructor_name.clone(),
        }
    }
}

impl Enrollment {
    /// A copy of the enrollment.
    pub fn duplicate(&self) -> (r: Enrollment)
        ensures
            r == *self,
    {
        Enrollment {
            course_id: self.course_id,
            student: self.student,
            student_name: self.student_name.clone(),
            roll_no: self.roll_no.clone(),
            passed: self.passed,
        }
    }
}

impl DaoProposal {
    /// A copy of the proposal.
    pub fn duplicate(&self) -> (r: DaoProposal)
        ensures
            r == *self,
    {
        DaoProposal { text: self.text.clone(), yes_votes: self.yes_votes, no_votes: self.no_votes }
    }
}

/// What an update told its caller.
#[derive(Clone, Copy, Debug, PartialEq, Eq, Structural)]
pub enum Reply {
    ProfileUpdated,
    EnrollStudentRemoved,
    EnrollCourseNotFound,
    EnrollAlreadyEnrolled,
    Enrolled,
    EnrollNoProfile,
    DroppedOut,
    DropNotEnrolled,
    MarkNotInstructor,
    MarkedPassed,
    MarkedFailed,
    MarkEnrollmentNotFound,
    RequestApproved,
    ApproveRequestNotFound,
    ProposalAdded,
    VoteCast,
    VoteProposalNotFound,
    InstructorBanned,
    InstructorAlreadyBanned,
    StudentRemoved,
    StudentAlreadyRemoved,
    TokenRewardSet,
    EnrollCostSet,
}

impl Reply {
    /// The text the caller receives.
    pub open spec fn message(self) -> Seq<char> {
        match self {
            Reply::ProfileUpdated => "Profile updated successfully."@,
            Reply::EnrollStudentRemoved => "Enrollment failed: Student has been removed from the platform."@,
            Reply::EnrollCourseNotFound => "Enrollment failed: Course not found."@,
            Reply::EnrollAlreadyEnrolled => "Enrollment failed: Already enrolled in this course."@,
            Reply::Enrolled => "Enrolled successfully."@,
            Reply::EnrollNoProfile => "Enrollment failed: Please set up your student profile first (update_student_profile)."@,
            Reply::DroppedOut => "Dropped out of course successfully."@,
            Reply::DropNotEnrolled => "Drop out failed: Not enrolled in this course."@,
            Reply::MarkNotInstructor => "Authorization failed: You are not the instructor of this course."@,
            Reply::MarkedPassed => "Student marked as passed successfully."@,
            Reply::MarkedFailed => "Student marked as failed successfully."@,
            Reply::MarkEnrollmentNotFound => "Marking failed: Enrollment not found for this student in this course."@,
            Reply::RequestApproved => "Course request approved and course added."@,
            Reply::ApproveRequestNotFound => "Approval failed: Course request not found."@,
            Reply::ProposalAdded => "DAO proposal added successfully."@,
            Reply::VoteCast => "Vote cast successfully."@,
            Reply::VoteProposalNotFound => "Voting failed: Proposal not found."@,
            Reply::InstructorBanned => "Instructor banned successfully."@,
            Reply::InstructorAlreadyBanned => "Instructor already banned."@,
            Reply::StudentRemoved => "Student removed successfully."@,
            Reply::StudentAlreadyRemoved => "Student already removed."@,
            Reply::TokenRewardSet => "Token reward per course set successfully."@,
            Reply::EnrollCostSet => "Cost to enroll set successfully."@,
        }
    }

    /// The text the caller receives, as a `String`.
    pub fn text(&self) -> (r: String)
        ensures
            r@ == self.message(),
    {
        match self {
            Reply::ProfileUpdated => String::from_str("Profile updated successfully."),
            Reply::EnrollStudentRemoved => String::from_str("Enrollment failed: Student has been removed from the platform."),
            Reply::EnrollCourseNotFound => String::from_str("Enrollment failed: Course not found."),
            Reply::EnrollAlreadyEnrolled => String::from_str("Enrollment failed: Already enrolled in this course."),
            Reply::Enrolled => String::from_str("Enrolled successfully."),
            Reply::EnrollNoProfile => String::from_str("Enrollment failed: Please set up your student profile first (update_student_profile)."),
            Reply::DroppedOut => String::from_str("Dropped out of course successfully."),
            Reply::DropNotEnrolled => String::from_str("Drop out failed: Not enrolled in this course."),
            Reply::MarkNotInstructor => String::from_str("Authorization failed: You are not the instructor of this course."),
            Reply::MarkedPassed => String::from_str("Student marked as passed successfully."),
            Reply::MarkedFailed => String::from_str("Student marked as failed successfully."),
            Reply::MarkEnrollmentNotFound => String::from_str("Marking failed: Enrollment not found for this student in this course."),
            Reply::RequestApproved => String::from_str("Course request approved and course added."),
            Reply::ApproveRequestNotFound => String::from_str("Approval failed: Course request not found."),
            Reply::ProposalAdded => String::from_str("DAO proposal added successfully."),
            Reply::VoteCast => String::from_str("Vote cast successfully."),
            Reply::VoteProposalNotFound => String::from_str("Voting failed: Proposal not found."),
            Reply::InstructorBanned => String::from_str("Instructor banned successfully."),
            Reply::InstructorAlreadyBanned => String::from_str("Instructor already banned."),
            Reply::StudentRemoved => String::from_str("Student removed successfully."),
            Reply::StudentAlreadyRemoved => String::from_str("Student already removed."),
            Reply::TokenRewardSet => String::from_str("Token reward per course set successfully."),
            Reply::EnrollCostSet => String::from_str("Cost to enroll set successfully."),
        }
    }
}

/// Why a call is refused outright, before it changes anything.
#[derive(Clone, Copy, Debug, PartialEq, Eq, Structural)]
pub enum Denial {
    /// An admin-only method was called anonymously.
    AnonymousAdmin,
    /// An admin-only method was called by a principal that is not an admin.
    NotAdmin,
    /// Registration was attempted anonymously.
    AnonymousRegistration,
    /// A method that needs an authenticated caller was called anonymously.
    Anonymous,
    /// A banned instructor asked for a new course.
    BannedInstructor,
    /// The caller asked for the students of a course it does not teach.
    NotInstructor,
    /// A vote would take a count past the largest `u32`.
    CountOverflow,
}

impl Denial {
    /// The text the call is refused with.
    pub open spec fn message(self) -> Seq<char> {
        match self {
            Denial::AnonymousAdmin => "Authentication required: Caller is anonymous."@,
            Denial::NotAdmin => "Authorization failed: Only admins can call this method."@,
            Denial::AnonymousRegistration => "Cannot register with an anonymous principal."@,
            Denial::Anonymous => "Authentication required."@,
            Denial::BannedInstructor => "Course request failed: You are a banned instructor."@,
            Denial::NotInstructor => "Access denied: You are not the instructor of this course."@,
            Denial::CountOverflow => "attempt to add with overflow"@,
        }
    }

    /// The text the call is refused with, as a `String`.
    pub fn text(&self) -> (r: String)
        ensures
            r@ == self.message(),
    {
        match self {
            Denial::AnonymousAdmin => String::from_str("Authentication required: Caller is anonymous."),
            Denial::NotAdmin => String::from_str("Authorization failed: Only admins can call this method."),
            Denial::AnonymousRegistration => String::from_str("Cannot register with an anonymous principal."),
            Denial::Anonymous => String::from_str("Authentication required."),
            Denial::BannedInstructor => String::from_str("Course request failed: You are a banned instructor."),
            Denial::NotInstructor => String::from_str("Access denied: You are not the instructor of this course."),
            Denial::CountOverflow => String::from_str("attempt to add with overflow"),
        }
    }
}

} // verus!
