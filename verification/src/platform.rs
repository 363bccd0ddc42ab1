//! The state of the learning platform and every operation on it.
//!
//! Each operation takes the principal that called it as an argument. An
//! operation that refuses some callers outright (an admin-only one, say)
//! demands in its `requires` that the caller passes; the matching `*_guard`
//! function decides, before the call, whether it does.
use vstd::prelude::*;

use std::collections::HashMap;

use crate::model::{
    Course, CourseRequest, DaoProposal, Denial, Enrollment, PlatformStats, Reply, Role,
    StudentProfile, TokenConfig,
};
use crate::principal::Principal;
use crate::principal_map::{keys_distinct, pairs_to_map, PrincipalMap};

verus! {

broadcast use vstd::std_specs::hash::group_hash_axioms;

/// What the platform holds, as mathematical values.
#[verifier::ext_equal]
pub struct PlatformState {
    /// The role of each registered user.
    pub roles: Map<Principal, Role>,
    /// The profile of each student who set one up.
    pub students: Map<Principal, StudentProfile>,
    /// The approved courses, by identifier.
    pub courses: Map<u64, Course>,
    /// The enrollments, oldest first.
    pub enrollments: Seq<Enrollment>,
    /// The course requests awaiting approval, oldest first.
    pub pending: Seq<CourseRequest>,
    /// The proposals, in the order they were added.
    pub proposals: Seq<DaoProposal>,
    /// The banned instructors, in the order they were banned.
    pub banned: Seq<Principal>,
    /// The removed students, in the order they were removed.
    pub removed: Seq<Principal>,
    /// The token configuration.
    pub config: TokenConfig,
}

/// Whether an enrollment is the one of `student` in course `course_id`.
pub open spec fn enrollment_of(e: Enrollment, course_id: u64, student: Principal) -> bool {
    e.course_id == course_id && e.student == student
}

impl PlatformState {
    /// The state of a freshly installed platform: nothing recorded, a reward
    /// of 10 tokens per course and a cost of 5 tokens to enroll.
    pub open spec fn initial() -> PlatformState {
        PlatformState {
            roles: Map::empty(),
            students: Map::empty(),
            courses: Map::empty(),
            enrollments: Seq::empty(),
            pending: Seq::empty(),
            proposals: Seq::empty(),
            banned: Seq::empty(),
            removed: Seq::empty(),
            config: TokenConfig { reward_per_course: 10, cost_to_enroll: 5 },
        }
    }

    /// What every operation keeps true: each course is filed under its own
    /// identifier; a student is enrolled at most once in a course, and only
    /// in an existing course and with a profile; nobody is banned or removed
    /// twice.
    pub open spec fn consistent(self) -> bool {
        &&& self.roles.dom().finite()
        &&& self.students.dom().finite()
        &&& self.courses.dom().finite()
        &&& forall|k: u64| #[trigger] self.courses.contains_key(k) ==> self.courses[k].id == k
        &&& forall|i: int, j: int|
            0 <= i < self.enrollments.len() && 0 <= j < self.enrollments.len() && i != j
                ==> !enrollment_of(
                #[trigger] self.enrollments[i],
                self.enrollments[j].course_id,
                #[trigger] self.enrollments[j].student,
            )
        &&& forall|i: int|
            0 <= i < self.enrollments.len() ==> {
                &&& self.courses.contains_key(#[trigger] self.enrollments[i].course_id)
                &&& self.students.contains_key(self.enrollments[i].student)
            }
        &&& self.banned.no_duplicates()
        &&& self.removed.no_duplicates()
    }

    /// The role a principal holds; one never registered counts as a guest.
    pub open spec fn role_of(self, p: Principal) -> Role {
        if self.roles.contains_key(p) {
            self.roles[p]
        } else {
            Role::Guest
        }
    }

    /// Whether `p` holds the admin role.
    pub open spec fn is_admin(self, p: Principal) -> bool {
        self.roles.contains_key(p) && self.roles[p] == Role::Admin
    }

    /// Whether `caller` may call an admin-only method.
    pub open spec fn admits_admin(self, caller: Principal) -> bool {
        !caller.is_anonymous_spec() && self.is_admin(caller)
    }

    /// Whether `p` teaches the course `course_id`.
    pub open spec fn teaches(self, course_id: u64, p: Principal) -> bool {
        self.courses.contains_key(course_id) && self.courses[course_id].instructor == p
    }

    /// Whether `p` is enrolled in course `course_id`.
    pub open spec fn is_enrolled(self, course_id: u64, p: Principal) -> bool {
        exists|i: int|
            0 <= i < self.enrollments.len() && enrollment_of(
                #[trigger] self.enrollments[i],
                course_id,
                p,
            )
    }

    /// The state with `user` holding `role`.
    pub open spec fn with_role(self, user: Principal, role: Role) -> PlatformState {
        PlatformState { roles: self.roles.insert(user, role), ..self }
    }

    /// The state after `p` registers: a newcomer becomes a guest, anyone
    /// else keeps the role it had.
    pub open spec fn registered(self, p: Principal) -> PlatformState {
        if self.roles.contains_key(p) {
            self
        } else {
            self.with_role(p, Role::Guest)
        }
    }

    /// The state with `p`'s profile set to `profile`.
    pub open spec fn with_profile(self, p: Principal, profile: StudentProfile) -> PlatformState {
        PlatformState { students: self.students.insert(p, profile), ..self }
    }

    /// The enrollment that a successful enrollment of `p` in `course_id` adds.
    pub open spec fn new_enrollment(self, p: Principal, course_id: u64) -> Enrollment {
        Enrollment {
            course_id,
            student: p,
            student_name: self.students[p].name,
            roll_no: self.students[p].roll_no,
            passed: None,
        }
    }

    /// What `p` asking to enroll in `course_id` is answered.
    pub open spec fn enroll_reply(self, p: Principal, course_id: u64) -> Reply {
        if self.removed.contains(p) {
            Reply::EnrollStudentRemoved
        } else if !self.students.contains_key(p) {
            Reply::EnrollNoProfile
        } else if !self.courses.contains_key(course_id) {
            Reply::EnrollCourseNotFound
        } else if self.is_enrolled(course_id, p) {
            Reply::EnrollAlreadyEnrolled
        } else {
            Reply::Enrolled
        }
    }

    /// The state after `p` asks to enroll in `course_id`.
    pub open spec fn enrolled(self, p: Principal, course_id: u64) -> PlatformState {
        if self.enroll_reply(p, course_id) == Reply::Enrolled {
            PlatformState {
                enrollments: self.enrollments.push(self.new_enrollment(p, course_id)),
                ..self
            }
        } else {
            self
        }
    }

    /// The enrollments other than `p`'s in `course_id`, in order.
    pub open spec fn enrollments_without(self, p: Principal, course_id: u64) -> Seq<Enrollment> {
        self.enrollments.filter(not_enrollment_of(course_id, p))
    }

    /// The state after `p` asks to drop out of `course_id`.
    pub open spec fn dropped(self, p: Principal, course_id: u64) -> PlatformState {
        PlatformState { enrollments: self.enrollments_without(p, course_id), ..self }
    }

    /// What `p` asking to drop out of `course_id` is answered.
    pub open spec fn drop_reply(self, p: Principal, course_id: u64) -> Reply {
        if self.is_enrolled(course_id, p) {
            Reply::DroppedOut
        } else {
            Reply::DropNotEnrolled
        }
    }

    /// The approved courses that `p` teaches.
    pub open spec fn courses_taught_by(self, p: Principal) -> Set<Course> {
        self.courses.values().filter(taught_by(p))
    }

    /// The enrollments in course `course_id`, in order.
    pub open spec fn enrollments_in(self, course_id: u64) -> Seq<Enrollment> {
        self.enrollments.filter(in_course(course_id))
    }

    /// The request that `p` asking at time `now` for a new course files.
    pub open spec fn course_request(
        p: Principal,
        now: u64,
        title: String,
        description: String,
        instructor_name: String,
    ) -> CourseRequest {
        CourseRequest { id: now, title, description, instructor: p, instructor_name }
    }

    /// The state with `req` awaiting approval.
    pub open spec fn with_request(self, req: CourseRequest) -> PlatformState {
        PlatformState { pending: self.pending.push(req), ..self }
    }

    /// Whether an enrollment of `student` in `course_id` comes before index
    /// `i`.
    pub open spec fn enrolled_before(self, course_id: u64, student: Principal, i: int) -> bool {
        exists|j: int|
            0 <= j < i && enrollment_of(#[trigger] self.enrollments[j], course_id, student)
    }

    /// Where the first enrollment of `student` in `course_id` stands.
    pub open spec fn first_enrollment_index(self, course_id: u64, student: Principal) -> int {
        choose|i: int|
            0 <= i < self.enrollments.len() && enrollment_of(
                #[trigger] self.enrollments[i],
                course_id,
                student,
            ) && !self.enrolled_before(course_id, student, i)
    }

    /// What `caller` marking `student` in `course_id` is answered.
    pub open spec fn mark_reply(
        self,
        caller: Principal,
        course_id: u64,
        student: Principal,
        pass: bool,
    ) -> Reply {
        if !self.teaches(course_id, caller) {
            Reply::MarkNotInstructor
        } else if !self.is_enrolled(course_id, student) {
            Reply::MarkEnrollmentNotFound
        } else if pass {
            Reply::MarkedPassed
        } else {
            Reply::MarkedFailed
        }
    }

    /// The state after `caller` marks `student` in `course_id` as having
    /// passed (`pass`) or failed.
    pub open spec fn marked(
        self,
        caller: Principal,
        course_id: u64,
        student: Principal,
        pass: bool,
    ) -> PlatformState {
        if self.teaches(course_id, caller) && self.is_enrolled(course_id, student) {
            let i = self.first_enrollment_index(course_id, student);
            PlatformState {
                enrollments: self.enrollments.update(
                    i,
                    Enrollment { passed: Some(pass), ..self.enrollments[i] },
                ),
                ..self
            }
        } else {
            self
        }
    }

    /// Whether a request with identifier `id` awaits approval.
    pub open spec fn has_request(self, id: u64) -> bool {
        exists|i: int| 0 <= i < self.pending.len() && #[trigger] self.pending[i].id == id
    }

    /// Whether a request with identifier `id` comes before index `i`.
    pub open spec fn request_before(self, id: u64, i: int) -> bool {
        exists|j: int| 0 <= j < i && #[trigger] self.pending[j].id == id
    }

    /// Where the first request with identifier `id` stands.
    pub open spec fn first_request_index(self, id: u64) -> int {
        choose|i: int|
            0 <= i < self.pending.len() && #[trigger] self.pending[i].id == id
                && !self.request_before(id, i)
    }

    /// What approving request `id` is answered.
    pub open spec fn approve_reply(self, id: u64) -> Reply {
        if self.has_request(id) {
            Reply::RequestApproved
        } else {
            Reply::ApproveRequestNotFound
        }
    }

    /// The state after approving request `id`: the first request with that
    /// identifier leaves the queue and its course is filed under its
    /// identifier, replacing any course filed there.
    pub open spec fn approved(self, id: u64) -> PlatformState {
        if self.has_request(id) {
            let i = self.first_request_index(id);
            let req = self.pending[i];
            PlatformState {
                pending: self.pending.remove(i),
                courses: self.courses.insert(req.id, course_from(req)),
                ..self
            }
        } else {
            self
        }
    }

    /// The state with a new proposal `text`, without votes.
    pub open spec fn with_proposal(self, text: String) -> PlatformState {
        PlatformState {
            proposals: self.proposals.push(DaoProposal { text, yes_votes: 0, no_votes: 0 }),
            ..self
        }
    }

    /// Whether proposal `index` exists.
    pub open spec fn has_proposal(self, index: u64) -> bool {
        (index as usize) < self.proposals.len()
    }

    /// Whether a vote on proposal `index` keeps its count within `u32`.
    pub open spec fn vote_fits(self, index: u64, yes: bool) -> bool {
        self.has_proposal(index) ==> {
            let p = self.proposals[(index as usize) as int];
            if yes {
                p.yes_votes < u32::MAX
            } else {
                p.no_votes < u32::MAX
            }
        }
    }

    /// What a vote on proposal `index` is answered.
    pub open spec fn vote_reply(self, index: u64) -> Reply {
        if self.has_proposal(index) {
            Reply::VoteCast
        } else {
            Reply::VoteProposalNotFound
        }
    }

    /// The state after a vote on proposal `index`: its yes count (`yes`) or
    /// its no count grows by one.
    pub open spec fn voted(self, index: u64, yes: bool) -> PlatformState {
        if self.has_proposal(index) {
            let i = (index as usize) as int;
            let p = self.proposals[i];
            let q = if yes {
                DaoProposal { yes_votes: (p.yes_votes + 1) as u32, ..p }
            } else {
                DaoProposal { no_votes: (p.no_votes + 1) as u32, ..p }
            };
            PlatformState { proposals: self.proposals.update(i, q), ..self }
        } else {
            self
        }
    }

    /// The state after banning instructor `p`.
    pub open spec fn with_banned(self, p: Principal) -> PlatformState {
        if self.banned.contains(p) {
            self
        } else {
            PlatformState { banned: self.banned.push(p), ..self }
        }
    }

    /// What banning instructor `p` is answered.
    pub open spec fn ban_reply(self, p: Principal) -> Reply {
        if self.banned.contains(p) {
            Reply::InstructorAlreadyBanned
        } else {
            Reply::InstructorBanned
        }
    }

    /// The state after removing student `p`.
    pub open spec fn with_removed(self, p: Principal) -> PlatformState {
        if self.removed.contains(p) {
            self
        } else {
            PlatformState { removed: self.removed.push(p), ..self }
        }
    }

    /// What removing student `p` is answered.
    pub open spec fn remove_reply(self, p: Principal) -> Reply {
        if self.removed.contains(p) {
            Reply::StudentAlreadyRemoved
        } else {
            Reply::StudentRemoved
        }
    }

    /// The state with a reward of `amount` tokens per course.
    pub open spec fn with_reward(self, amount: u64) -> PlatformState {
        PlatformState { config: TokenConfig { reward_per_course: amount, ..self.config }, ..self }
    }

    /// The state with a cost of `amount` tokens to enroll.
    pub open spec fn with_cost(self, amount: u64) -> PlatformState {
        PlatformState { config: TokenConfig { cost_to_enroll: amount, ..self.config }, ..self }
    }

    /// The enrollments whose student passed.
    pub open spec fn certificates(self) -> Seq<Enrollment> {
        self.enrollments.filter(is_certificate())
    }

    /// The platform's statistics: the students with a profile, the approved
    /// courses and the passed enrollments.
    pub open spec fn stats(self) -> PlatformStats {
        PlatformStats {
            total_students: self.students.dom().len() as u64,
            total_courses: self.courses.dom().len() as u64,
            certificates_issued: self.certificates().len() as u64,
        }
    }
}

/// Holds of an enrollment other than `p`'s in `course_id`.
pub open spec fn not_enrollment_of(course_id: u64, p: Principal) -> spec_fn(Enrollment) -> bool {
    |e: Enrollment| !enrollment_of(e, course_id, p)
}

/// Some enrollment of `student` in `course_id` at or before `w` has none
/// before it.
proof fn lemma_first_enrollment_below(s: PlatformState, course_id: u64, student: Principal, w: int)
    requires
        0 <= w < s.enrollments.len(),
        enrollment_of(s.enrollments[w], course_id, student),
    ensures
        exists|i: int|
            0 <= i < s.enrollments.len() && enrollment_of(
                #[trigger] s.enrollments[i],
                course_id,
                student,
            ) && !s.enrolled_before(course_id, student, i),
    decreases w,
{
    if s.enrolled_before(course_id, student, w) {
        let j = choose|j: int|
            0 <= j < w && enrollment_of(#[trigger] s.enrollments[j], course_id, student);
        lemma_first_enrollment_below(s, course_id, student, j);
    }
}

/// When `student` is enrolled in `course_id`, its first enrollment there is
/// well defined.
pub proof fn lemma_first_enrollment(s: PlatformState, course_id: u64, student: Principal)
    requires
        s.is_enrolled(course_id, student),
    ensures
        ({
            let i = s.first_enrollment_index(course_id, student);
            &&& 0 <= i < s.enrollments.len()
            &&& enrollment_of(s.enrollments[i], course_id, student)
            &&& !s.enrolled_before(course_id, student, i)
        }),
{
    let w = choose|i: int|
        0 <= i < s.enrollments.len() && enrollment_of(#[trigger] s.enrollments[i], course_id, student);
    lemma_first_enrollment_below(s, course_id, student, w);
}

/// Some request with identifier `id` at or before `w` has none before it.
proof fn lemma_first_request_below(s: PlatformState, id: u64, w: int)
    requires
        0 <= w < s.pending.len(),
        s.pending[w].id == id,
    ensures
        exists|i: int|
            0 <= i < s.pending.len() && #[trigger] s.pending[i].id == id && !s.request_before(id, i),
    decreases w,
{
    if s.request_before(id, w) {
        let j = choose|j: int| 0 <= j < w && #[trigger] s.pending[j].id == id;
        lemma_first_request_below(s, id, j);
    }
}

/// When a request with identifier `id` is pending, the first one is well
/// defined.
pub proof fn lemma_first_request(s: PlatformState, id: u64)
    requires
        s.has_request(id),
    ensures
        ({
            let i = s.first_request_index(id);
            &&& 0 <= i < s.pending.len()
            &&& s.pending[i].id == id
            &&& !s.request_before(id, i)
        }),
{
    let w = choose|i: int| 0 <= i < s.pending.len() && #[trigger] s.pending[i].id == id;
    lemma_first_request_below(s, id, w);
}

/// The course that approving `req` files.
pub open spec fn course_from(req: CourseRequest) -> Course {
    Course { id: req.id, title: req.title, description: req.description, instructor: req.instructor }
}

/// Holds of a course that `p` teaches.
pub open spec fn taught_by(p: Principal) -> spec_fn(Course) -> bool {
    |c: Course| c.instructor == p
}

/// Holds of an enrollment in course `course_id`.
pub open spec fn in_course(course_id: u64) -> spec_fn(Enrollment) -> bool {
    |e: Enrollment| e.course_id == course_id
}

/// Holds of an enrollment whose student passed.
pub open spec fn is_certificate() -> spec_fn(Enrollment) -> bool {
    |e: Enrollment| e.passed == Some(true)
}

/// The learning platform: users and their roles, student profiles, courses
/// and the requests for them, enrollments and grades, proposals and votes,
/// banned instructors, removed students and the token configuration.
pub struct Platform {
    user_roles: PrincipalMap<Role>,
    students: PrincipalMap<StudentProfile>,
    courses: HashMap<u64, Course>,
    enrollments: Vec<Enrollment>,
    pending_requests: Vec<CourseRequest>,
    dao_proposals: Vec<DaoProposal>,
    banned_instructors: Vec<Principal>,
    removed_students: Vec<Principal>,
    config: TokenConfig,
}

impl View for Platform {
    type V = PlatformState;

    closed spec fn view(&self) -> PlatformState {
        PlatformState {
            roles: self.user_roles@,
            students: self.students@,
            courses: self.courses@,
            enrollments: self.enrollments@,
            pending: self.pending_requests@,
            proposals: self.dao_proposals@,
            banned: self.banned_instructors@,
            removed: self.removed_students@,
            config: self.config,
        }
    }
}

impl Platform {
    /// The platform's records are well formed.
    pub closed spec fn wf(&self) -> bool {
        &&& self.user_roles.wf()
        &&& self.students.wf()
        &&& self@.consistent()
    }

    /// Every platform the operations hand out is consistent.
    pub proof fn lemma_consistent(&self)
        requires
            self.wf(),
        ensures
            self@.consistent(),
    {
    }

    /// A platform with nothing recorded and the default token configuration.
    pub fn new() -> (r: Platform)
        ensures
            r.wf(),
            r@ == PlatformState::initial(),
    {
        let r = Platform {
            user_roles: PrincipalMap::new(),
            students: PrincipalMap::new(),
            courses: HashMap::new(),
            enrollments: Vec::new(),
            pending_requests: Vec::new(),
            dao_proposals: Vec::new(),
            banned_instructors: Vec::new(),
            removed_students: Vec::new(),
            config: TokenConfig { reward_per_course: 10, cost_to_enroll: 5 },
        };
        proof {
            assert(r@ =~= PlatformState::initial());
        }
        r
    }

    /// The platform as installed by `deployer`, who becomes its first admin.
    pub fn init(deployer: &Principal) -> (r: Platform)
        ensures
            r.wf(),
            r@ == PlatformState::initial().with_role(*deployer, Role::Admin),
    {
        let mut r = Platform::new();
        r.user_roles.insert(*deployer, Role::Admin);
        proof {
            assert(r@ =~= PlatformState::initial().with_role(*deployer, Role::Admin));
        }
        r
    }

    /// Whether `p` holds the admin role.
    pub fn is_admin(&self, p: &Principal) -> (r: bool)
        requires
            self.wf(),
        ensures
            r == self@.is_admin(*p),
    {
        match self.user_roles.get(p) {
            Some(role) => *role == Role::Admin,
            None => false,
        }
    }

    /// Decides whether `caller` may call an admin-only method: not when it
    /// is anonymous, nor when it is not an admin.
    pub fn admin_guard(&self, caller: &Principal) -> (r: Result<(), Denial>)
        requires
            self.wf(),
        ensures
            r is Ok <==> self@.admits_admin(*caller),
            r matches Err(d) ==> d == (if caller.is_anonymous_spec() {
                Denial::AnonymousAdmin
            } else {
                Denial::NotAdmin
            }),
    {
        if caller.is_anonymous() {
            Err(Denial::AnonymousAdmin)
        } else if !self.is_admin(caller) {
            Err(Denial::NotAdmin)
        } else {
            Ok(())
        }
    }

    /// Decides whether `caller` may register: not when it is anonymous.
    pub fn registration_guard(caller: &Principal) -> (r: Result<(), Denial>)
        ensures
            r is Ok <==> !caller.is_anonymous_spec(),
            r matches Err(d) ==> d == Denial::AnonymousRegistration,
    {
        if caller.is_anonymous() {
            Err(Denial::AnonymousRegistration)
        } else {
            Ok(())
        }
    }

    /// Decides whether `caller` may call a method for authenticated callers:
    /// not when it is anonymous.
    pub fn caller_guard(caller: &Principal) -> (r: Result<(), Denial>)
        ensures
            r is Ok <==> !caller.is_anonymous_spec(),
            r matches Err(d) ==> d == Denial::Anonymous,
    {
        if caller.is_anonymous() {
            Err(Denial::Anonymous)
        } else {
            Ok(())
        }
    }

    // ──────────────────────────────────────────────────────────────
    // Users and roles
    // ──────────────────────────────────────────────────────────────

    /// Registers `caller` as a user: a newcomer becomes a guest, a known user
    /// keeps its role.
    pub fn register_user(&mut self, caller: &Principal)
        requires
            old(self).wf(),
            !caller.is_anonymous_spec(),
        ensures
            final(self).wf(),
            final(self)@ == old(self)@.registered(*caller),
    {
        self.user_roles.insert_if_absent(*caller, Role::Guest);
        proof {
            assert(self@ =~= old(self)@.registered(*caller));
        }
    }

    /// The role of `caller`; one never registered is a guest.
    pub fn my_role(&self, caller: &Principal) -> (r: Role)
        requires
            self.wf(),
        ensures
            r == self@.role_of(*caller),
    {
        match self.user_roles.get(caller) {
            Some(role) => *role,
            None => Role::Guest,
        }
    }

    /// Admin-only: gives `user` the role `role`.
    pub fn assign_role(&mut self, caller: &Principal, user: &Principal, role: Role)
        requires
            old(self).wf(),
            old(self)@.admits_admin(*caller),
        ensures
            final(self).wf(),
            final(self)@ == old(self)@.with_role(*user, role),
    {
        self.user_roles.insert(*user, role);
        proof {
            assert(self@ =~= old(self)@.with_role(*user, role));
        }
    }

    /// Admin-only: every registered user with its role, each user once.
    pub fn list_users(&self, caller: &Principal) -> (r: Vec<(Principal, Role)>)
        requires
            self.wf(),
            self@.admits_admin(*caller),
        ensures
            keys_distinct(r@),
            pairs_to_map(r@) == self@.roles,
    {
        self.user_roles.pairs()
    }

    /// Every principal that holds a role, each once.
    pub fn list_principals(&self) -> (r: Vec<Principal>)
        requires
            self.wf(),
        ensures
            r@.no_duplicates(),
            r@.to_set() == self@.roles.dom(),
    {
        self.user_roles.keys()
    }

    // ──────────────────────────────────────────────────────────────
    // Courses
    // ──────────────────────────────────────────────────────────────

    /// Every approved course, each once, in no particular order.
    pub fn browse_courses(&self) -> (r: Vec<Course>)
        requires
            self.wf(),
        ensures
            r@.no_duplicates(),
            r@.to_set() == self@.courses.values(),
    {
        let mut out: Vec<Course> = Vec::new();
        for c in it: self.courses.values()
            invariant
                it.seq() == vstd::std_specs::iter::IteratorSpec::remaining(
                    &vstd::std_specs::hash::spec_values_iter(&self.courses),
                ),
                out@.len() == it.index(),
                forall|j: int| 0 <= j < it.index() ==> out@[j] == *it.seq()[j],
        {
            out.push(c.duplicate());
        }
        proof {
            let rem = vstd::std_specs::iter::IteratorSpec::remaining(
                &vstd::std_specs::hash::spec_values_iter(&self.courses),
            );
            assert(out@ =~= rem.unref());
            assert(out@.to_set() =~= self@.courses.values());
            assert(self@.courses.is_injective());
            self@.courses.lemma_injective_values_len();
            out@.lemma_no_dup_set_cardinality();
        }
        out
    }

    // ──────────────────────────────────────────────────────────────
    // Students
    // ──────────────────────────────────────────────────────────────

    /// Sets the profile of `caller`.
    pub fn update_student_profile(
        &mut self,
        caller: &Principal,
        name: String,
        roll_no: String,
        email: String,
    ) -> (r: String)
        requires
            old(self).wf(),
            !caller.is_anonymous_spec(),
        ensures
            final(self).wf(),
            final(self)@ == old(self)@.with_profile(
                *caller,
                StudentProfile { name, roll_no, email },
            ),
            r@ == Reply::ProfileUpdated.message(),
    {
        let profile = StudentProfile { name, roll_no, email };
        self.students.insert(*caller, profile);
        proof {
            let before = old(self)@;
            assert(self@ =~= before.with_profile(*caller, profile));
            assert(self@.students.dom().finite());
            assert forall|i: int| 0 <= i < self@.enrollments.len() implies {
                &&& self@.courses.contains_key(#[trigger] self@.enrollments[i].course_id)
                &&& self@.students.contains_key(self@.enrollments[i].student)
            } by {
                assert(before.courses.contains_key(before.enrollments[i].course_id));
                assert(before.students.contains_key(before.enrollments[i].student));
            }
        }
        Reply::ProfileUpdated.text()
    }

    /// Where the first enrollment of `student` in `course_id` stands, if any.
    fn find_enrollment(&self, course_id: u64, student: &Principal) -> (r: Option<usize>)
        ensures
            r matches Some(i) ==> {
                &&& i < self@.enrollments.len()
                &&& enrollment_of(self@.enrollments[i as int], course_id, *student)
                &&& !self@.enrolled_before(course_id, *student, i as int)
            },
            r is None ==> !self@.is_enrolled(course_id, *student),
    {
        let mut i: usize = 0;
        while i < self.enrollments.len()
            invariant
                0 <= i <= self@.enrollments.len(),
                !self@.enrolled_before(course_id, *student, i as int),
            decreases self@.enrollments.len() - i,
        {
            let e = &self.enrollments[i];
            if e.course_id == course_id && e.student == *student {
                return Some(i);
            }
            proof {
                assert forall|j: int| 0 <= j < i + 1 implies !enrollment_of(
                    #[trigger] self@.enrollments[j],
                    course_id,
                    *student,
                ) by {
                    if j < i {
                        assert(!self@.enrolled_before(course_id, *student, i as int));
                    }
                }
            }
            i = i + 1;
        }
        None
    }

    /// Enrolls `caller` in course `course_id`, unless `caller` was removed,
    /// has no profile, asks for a course that does not exist or is already
    /// enrolled in it.
    pub fn enroll_in_course(&mut self, caller: &Principal, course_id: u64) -> (r: String)
        requires
            old(self).wf(),
            !caller.is_anonymous_spec(),
        ensures
            final(self).wf(),
            final(self)@ == old(self)@.enrolled(*caller, course_id),
            r@ == old(self)@.enroll_reply(*caller, course_id).message(),
    {
        if contains_principal(&self.removed_students, caller) {
            return Reply::EnrollStudentRemoved.text();
        }
        let (student_name, roll_no) = match self.students.get(caller) {
            Some(p) => (p.name.clone(), p.roll_no.clone()),
            None => {
                return Reply::EnrollNoProfile.text();
            },
        };
        if !self.courses.contains_key(&course_id) {
            return Reply::EnrollCourseNotFound.text();
        }
        if self.find_enrollment(course_id, caller).is_some() {
            return Reply::EnrollAlreadyEnrolled.text();
        }
        let e = Enrollment { course_id, student: *caller, student_name, roll_no, passed: None };
        let ghost before = self@;
        proof {
            assert(e == before.new_enrollment(*caller, course_id));
        }
        self.enrollments.push(e);
        proof {
            assert(self@ =~= before.enrolled(*caller, course_id));
            let es = self@.enrollments;
            assert forall|i: int, j: int|
                0 <= i < es.len() && 0 <= j < es.len() && i != j implies !enrollment_of(
                #[trigger] es[i],
                es[j].course_id,
                #[trigger] es[j].student,
            ) by {
                if i < es.len() - 1 && j < es.len() - 1 {
                    assert(es[i] == before.enrollments[i] && es[j] == before.enrollments[j]);
                } else if i < es.len() - 1 {
                    assert(es[i] == before.enrollments[i]);
                    if enrollment_of(es[i], es[j].course_id, es[j].student) {
                        assert(enrollment_of(before.enrollments[i], course_id, *caller));
                    }
                } else if j < es.len() - 1 {
                    assert(es[j] == before.enrollments[j]);
                    if enrollment_of(es[i], es[j].course_id, es[j].student) {
                        assert(enrollment_of(before.enrollments[j], course_id, *caller));
                    }
                }
            }
            assert forall|i: int| 0 <= i < es.len() implies {
                &&& self@.courses.contains_key(#[trigger] es[i].course_id)
                &&& self@.students.contains_key(es[i].student)
            } by {
                if i < es.len() - 1 {
                    assert(es[i] == before.enrollments[i]);
                }
            }
        }
        Reply::Enrolled.text()
    }

    /// Drops `caller` out of course `course_id`.
    pub fn drop_out_of_course(&mut self, caller: &Principal, course_id: u64) -> (r: String)
        requires
            old(self).wf(),
            !caller.is_anonymous_spec(),
        ensures
            final(self).wf(),
            final(self)@ == old(self)@.dropped(*caller, course_id),
            r@ == old(self)@.drop_reply(*caller, course_id).message(),
    {
        let ghost before = self@;
        let ghost keep = not_enrollment_of(course_id, *caller);
        let mut kept: Vec<Enrollment> = Vec::new();
        let mut found = false;
        let ghost mut idx: Seq<int> = Seq::empty();
        let mut i: usize = 0;
        while i < self.enrollments.len()
            invariant
                self@ == before,
                0 <= i <= before.enrollments.len(),
                kept@ == before.enrollments.take(i as int).filter(keep),
                keep == not_enrollment_of(course_id, *caller),
                found == before.enrolled_before(course_id, *caller, i as int),
                idx.len() == kept@.len(),
                forall|k: int| 0 <= k < idx.len() ==> 0 <= #[trigger] idx[k] < i,
                forall|k: int| 0 <= k < idx.len() ==> kept@[k] == before.enrollments[#[trigger] idx[k]],
                forall|a: int, b: int| 0 <= a < b < idx.len() ==> #[trigger] idx[a] < #[trigger] idx[b],
            decreases before.enrollments.len() - i,
        {
            let e = &self.enrollments[i];
            proof {
                assert(before.enrollments.take(i + 1) =~= before.enrollments.take(i as int).push(*e));
                before.enrollments.take(i as int).lemma_filter_push(*e, keep);
            }
            if e.course_id == course_id && e.student == *caller {
                found = true;
            } else {
                kept.push(e.duplicate());
                proof {
                    idx = idx.push(i as int);
                }
            }
            proof {
                assert forall|j: int| 0 <= j < i + 1 && enrollment_of(
                    #[trigger] before.enrollments[j],
                    course_id,
                    *caller,
                ) implies found by {
                    if j < i {
                        assert(before.enrolled_before(course_id, *caller, i as int));
                    }
                }
                if found {
                    if !before.enrolled_before(course_id, *caller, i as int) {
                        assert(enrollment_of(before.enrollments[i as int], course_id, *caller));
                    }
                }
            }
            i = i + 1;
        }
        proof {
            assert(before.enrollments.take(i as int) =~= before.enrollments);
            let es = kept@;
            assert forall|a: int, b: int|
                0 <= a < es.len() && 0 <= b < es.len() && a != b implies !enrollment_of(
                #[trigger] es[a],
                es[b].course_id,
                #[trigger] es[b].student,
            ) by {
                assert(idx[a] != idx[b]) by {
                    if a < b {
                        assert(idx[a] < idx[b]);
                    } else {
                        assert(idx[b] < idx[a]);
                    }
                }
                assert(es[a] == before.enrollments[idx[a]]);
                assert(es[b] == before.enrollments[idx[b]]);
            }
            assert forall|a: int| 0 <= a < es.len() implies {
                &&& before.courses.contains_key(#[trigger] es[a].course_id)
                &&& before.students.contains_key(es[a].student)
            } by {
                assert(es[a] == before.enrollments[idx[a]]);
            }
        }
        self.enrollments = kept;
        proof {
            assert(self@ =~= before.dropped(*caller, course_id));
        }
        if found {
            Reply::DroppedOut.text()
        } else {
            Reply::DropNotEnrolled.text()
        }
    }

    // ──────────────────────────────────────────────────────────────
    // Instructors
    // ──────────────────────────────────────────────────────────────

    /// Decides whether `caller` may ask for a new course: not when it is
    /// anonymous, nor when it is a banned instructor.
    pub fn course_request_guard(&self, caller: &Principal) -> (r: Result<(), Denial>)
        requires
            self.wf(),
        ensures
            r is Ok <==> !caller.is_anonymous_spec() && !self@.banned.contains(*caller),
            r matches Err(d) ==> d == (if caller.is_anonymous_spec() {
                Denial::Anonymous
            } else {
                Denial::BannedInstructor
            }),
    {
        if caller.is_anonymous() {
            Err(Denial::Anonymous)
        } else if contains_principal(&self.banned_instructors, caller) {
            Err(Denial::BannedInstructor)
        } else {
            Ok(())
        }
    }

    /// Files a request, made by `caller` at time `now`, for a new course;
    /// the time becomes the request's identifier.
    pub fn request_new_course(
        &mut self,
        caller: &Principal,
        now: u64,
        title: String,
        description: String,
        instructor_name: String,
    ) -> (r: CourseRequest)
        requires
            old(self).wf(),
            !caller.is_anonymous_spec(),
            !old(self)@.banned.contains(*caller),
        ensures
            final(self).wf(),
            r == PlatformState::course_request(*caller, now, title, description, instructor_name),
            final(self)@ == old(self)@.with_request(r),
    {
        let req = CourseRequest { id: now, title, description, instructor: *caller, instructor_name };
        self.pending_requests.push(req.duplicate());
        proof {
            assert(self@ =~= old(self)@.with_request(req));
        }
        req
    }

    /// The approved courses that `caller` teaches, each once, in no
    /// particular order.
    pub fn list_my_courses(&self, caller: &Principal) -> (r: Vec<Course>)
        requires
            self.wf(),
            !caller.is_anonymous_spec(),
        ensures
            r@.no_duplicates(),
            r@.to_set() == self@.courses_taught_by(*caller),
    {
        let ghost rem = vstd::std_specs::iter::IteratorSpec::remaining(
            &vstd::std_specs::hash::spec_values_iter(&self.courses),
        );
        let ghost vals = rem.unref();
        proof {
            assert(vals.to_set() =~= self@.courses.values());
            assert(self@.courses.is_injective());
            self@.courses.lemma_injective_values_len();
            vals.lemma_no_dup_set_cardinality();
        }
        let mut out: Vec<Course> = Vec::new();
        for c in it: self.courses.values()
            invariant
                it.seq() == rem,
                vals == rem.unref(),
                vals.no_duplicates(),
                out@.no_duplicates(),
                forall|k: int| 0 <= k < out@.len() ==> (#[trigger] out@[k]).instructor == *caller,
                forall|k: int|
                    0 <= k < out@.len() ==> vals.take(it.index()).contains(#[trigger] out@[k]),
                forall|j: int|
                    0 <= j < it.index() && (#[trigger] vals[j]).instructor == *caller
                        ==> out@.contains(vals[j]),
        {
            let ghost i = it.index();
            if c.instructor == *caller {
                proof {
                    assert(vals[i] == *c);
                    assert forall|k: int| 0 <= k < out@.len() implies out@[k] != *c by {
                        let m = choose|m: int| 0 <= m < i && vals.take(i)[m] == out@[k];
                        assert(vals[m] == out@[k]);
                    }
                }
                let d = c.duplicate();
                let ghost old_out = out@;
                out.push(d);
                proof {
                    assert forall|k: int| 0 <= k < out@.len() implies vals.take(i + 1).contains(
                        out@[k],
                    ) by {
                        if k < out@.len() - 1 {
                            let m = choose|m: int| 0 <= m < i && vals.take(i)[m] == out@[k];
                            assert(vals.take(i + 1)[m] == out@[k]);
                        } else {
                            assert(vals.take(i + 1)[i] == out@[k]);
                        }
                    }
                    assert forall|j: int|
                        0 <= j < i + 1 && (#[trigger] vals[j]).instructor == *caller implies out@.contains(
                        vals[j],
                    ) by {
                        if j < i {
                            assert(old_out.contains(vals[j]));
                            let m = choose|m: int| 0 <= m < old_out.len() && old_out[m] == vals[j];
                            assert(out@[m] == vals[j]);
                        } else {
                            assert(out@[out@.len() - 1] == vals[j]);
                        }
                    }
                }
            } else {
                proof {
                    assert forall|k: int| 0 <= k < out@.len() implies vals.take(i + 1).contains(
                        out@[k],
                    ) by {
                        let m = choose|m: int| 0 <= m < i && vals.take(i)[m] == out@[k];
                        assert(vals.take(i + 1)[m] == out@[k]);
                    }
                }
            }
        }
        proof {
            let want = self@.courses_taught_by(*caller);
            assert(vals.take(vals.len() as int) =~= vals);
            assert forall|c: Course| out@.to_set().contains(c) implies want.contains(c) by {
                let k = choose|k: int| 0 <= k < out@.len() && out@[k] == c;
                assert(out@[k].instructor == *caller);
                assert(vals.contains(c));
                assert(vals.to_set().contains(c));
            }
            assert forall|c: Course| want.contains(c) implies out@.to_set().contains(c) by {
                assert(self@.courses.values().contains(c));
                assert(vals.to_set().contains(c));
                let j = choose|j: int| 0 <= j < vals.len() && vals[j] == c;
                assert(vals[j].instructor == *caller);
            }
            assert(out@.to_set() =~= want);
        }
        out
    }

    /// Decides whether `caller` may list the students of course `course_id`:
    /// not when it is anonymous, nor when it does not teach that course.
    pub fn enrolled_students_guard(&self, caller: &Principal, course_id: u64) -> (r: Result<
        (),
        Denial,
    >)
        requires
            self.wf(),
        ensures
            r is Ok <==> !caller.is_anonymous_spec() && self@.teaches(course_id, *caller),
            r matches Err(d) ==> d == (if caller.is_anonymous_spec() {
                Denial::Anonymous
            } else {
                Denial::NotInstructor
            }),
    {
        if caller.is_anonymous() {
            Err(Denial::Anonymous)
        } else if !self.teaches(course_id, caller) {
            Err(Denial::NotInstructor)
        } else {
            Ok(())
        }
    }

    /// Whether `p` teaches course `course_id`.
    pub fn teaches(&self, course_id: u64, p: &Principal) -> (r: bool)
        requires
            self.wf(),
        ensures
            r == self@.teaches(course_id, *p),
    {
        match self.courses.get(&course_id) {
            Some(c) => c.instructor == *p,
            None => false,
        }
    }

    /// The enrollments in course `course_id`, which `caller` teaches, in
    /// order.
    pub fn list_enrolled_students(&self, caller: &Principal, course_id: u64) -> (r: Vec<
        Enrollment,
    >)
        requires
            self.wf(),
            !caller.is_anonymous_spec(),
            self@.teaches(course_id, *caller),
        ensures
            r@ == self@.enrollments_in(course_id),
    {
        let ghost es = self@.enrollments;
        let mut out: Vec<Enrollment> = Vec::new();
        let mut i: usize = 0;
        while i < self.enrollments.len()
            invariant
                es == self@.enrollments,
                0 <= i <= es.len(),
                out@ == es.take(i as int).filter(in_course(course_id)),
            decreases es.len() - i,
        {
            let e = &self.enrollments[i];
            proof {
                assert(es.take(i + 1) =~= es.take(i as int).push(*e));
                es.take(i as int).lemma_filter_push(*e, in_course(course_id));
            }
            if e.course_id == course_id {
                out.push(e.duplicate());
            }
            i = i + 1;
        }
        proof {
            assert(es.take(i as int) =~= es);
        }
        out
    }

    /// Marks `student` in course `course_id`, which `caller` must teach, as
    /// having passed.
    pub fn mark_pass(&mut self, caller: &Principal, course_id: u64, student: &Principal) -> (r:
        String)
        requires
            old(self).wf(),
            !caller.is_anonymous_spec(),
        ensures
            final(self).wf(),
            final(self)@ == old(self)@.marked(*caller, course_id, *student, true),
            r@ == old(self)@.mark_reply(*caller, course_id, *student, true).message(),
    {
        self.mark_student(caller, course_id, student, true)
    }

    /// Marks `student` in course `course_id`, which `caller` must teach, as
    /// having failed.
    pub fn mark_fail(&mut self, caller: &Principal, course_id: u64, student: &Principal) -> (r:
        String)
        requires
            old(self).wf(),
            !caller.is_anonymous_spec(),
        ensures
            final(self).wf(),
            final(self)@ == old(self)@.marked(*caller, course_id, *student, false),
            r@ == old(self)@.mark_reply(*caller, course_id, *student, false).message(),
    {
        self.mark_student(caller, course_id, student, false)
    }

    /// Records whether `student` passed course `course_id`, which `caller`
    /// must teach.
    pub fn mark_student(
        &mut self,
        caller: &Principal,
        course_id: u64,
        student: &Principal,
        pass: bool,
    ) -> (r: String)
        requires
            old(self).wf(),
            !caller.is_anonymous_spec(),
        ensures
            final(self).wf(),
            final(self)@ == old(self)@.marked(*caller, course_id, *student, pass),
            r@ == old(self)@.mark_reply(*caller, course_id, *student, pass).message(),
    {
        if !self.teaches(course_id, caller) {
            return Reply::MarkNotInstructor.text();
        }
        match self.find_enrollment(course_id, student) {
            Some(i) => {
                let ghost before = self@;
                let mut e = self.enrollments[i].duplicate();
                e.passed = Some(pass);
                self.enrollments.set(i, e);
                proof {
                    let fi = before.first_enrollment_index(course_id, *student);
                    assert(before.is_enrolled(course_id, *student));
                    assert(0 <= fi < before.enrollments.len());
                    if fi != i {
                        if fi < i {
                            assert(before.enrolled_before(course_id, *student, i as int));
                        } else {
                            assert(before.enrolled_before(course_id, *student, fi));
                        }
                    }
                    assert(self@ =~= before.marked(*caller, course_id, *student, pass));
                    let es = self@.enrollments;
                    assert forall|a: int, b: int|
                        0 <= a < es.len() && 0 <= b < es.len() && a != b implies !enrollment_of(
                        #[trigger] es[a],
                        es[b].course_id,
                        #[trigger] es[b].student,
                    ) by {
                        assert(before.enrollments[a].course_id == es[a].course_id);
                        assert(before.enrollments[a].student == es[a].student);
                        assert(before.enrollments[b].course_id == es[b].course_id);
                        assert(before.enrollments[b].student == es[b].student);
                    }
                    assert forall|a: int| 0 <= a < es.len() implies {
                        &&& self@.courses.contains_key(#[trigger] es[a].course_id)
                        &&& self@.students.contains_key(es[a].student)
                    } by {
                        assert(before.enrollments[a].course_id == es[a].course_id);
                        assert(before.enrollments[a].student == es[a].student);
                    }
                }
                if pass {
                    Reply::MarkedPassed.text()
                } else {
                    Reply::MarkedFailed.text()
                }
            },
            None => Reply::MarkEnrollmentNotFound.text(),
        }
    }

    // ──────────────────────────────────────────────────────────────
    // Administration
    // ──────────────────────────────────────────────────────────────

    /// Where the first request with identifier `id` stands, if any.
    fn find_request(&self, id: u64) -> (r: Option<usize>)
        ensures
            r matches Some(i) ==> {
                &&& i < self@.pending.len()
                &&& self@.pending[i as int].id == id
                &&& !self@.request_before(id, i as int)
            },
            r is None ==> !self@.has_request(id),
    {
        let mut i: usize = 0;
        while i < self.pending_requests.len()
            invariant
                0 <= i <= self@.pending.len(),
                !self@.request_before(id, i as int),
            decreases self@.pending.len() - i,
        {
            if self.pending_requests[i].id == id {
                return Some(i);
            }
            proof {
                assert forall|j: int| 0 <= j < i + 1 implies #[trigger] self@.pending[j].id != id by {
                    if j < i {
                        assert(!self@.request_before(id, i as int));
                    }
                }
            }
            i = i + 1;
        }
        None
    }

    /// Admin-only: approves the first request with identifier `id`, filing
    /// its course under that identifier.
    pub fn approve_course_request(&mut self, caller: &Principal, id: u64) -> (r: String)
        requires
            old(self).wf(),
            old(self)@.admits_admin(*caller),
        ensures
            final(self).wf(),
            final(self)@ == old(self)@.approved(id),
            r@ == old(self)@.approve_reply(id).message(),
    {
        match self.find_request(id) {
            Some(i) => {
                let ghost before = self@;
                proof {
                    let fi = before.first_request_index(id);
                    assert(before.has_request(id));
                    assert(0 <= fi < before.pending.len());
                    if fi != i {
                        if fi < i {
                            assert(before.request_before(id, i as int));
                        } else {
                            assert(before.request_before(id, fi));
                        }
                    }
                }
                let req = self.pending_requests.remove(i);
                let course = Course {
                    id: req.id,
                    title: req.title,
                    description: req.description,
                    instructor: req.instructor,
                };
                self.courses.insert(req.id, course);
                proof {
                    assert(self@ =~= before.approved(id));
                    assert forall|a: int| 0 <= a < self@.enrollments.len() implies {
                        &&& self@.courses.contains_key(#[trigger] self@.enrollments[a].course_id)
                        &&& self@.students.contains_key(self@.enrollments[a].student)
                    } by {
                        assert(before.courses.contains_key(before.enrollments[a].course_id));
                    }
                }
                Reply::RequestApproved.text()
            },
            None => Reply::ApproveRequestNotFound.text(),
        }
    }

    /// Admin-only: the requests awaiting approval, oldest first.
    pub fn list_pending_requests(&self, caller: &Principal) -> (r: Vec<CourseRequest>)
        requires
            self.wf(),
            self@.admits_admin(*caller),
        ensures
            r@ == self@.pending,
    {
        let mut out: Vec<CourseRequest> = Vec::new();
        let mut i: usize = 0;
        while i < self.pending_requests.len()
            invariant
                0 <= i <= self@.pending.len(),
                out@ == self@.pending.take(i as int),
            decreases self@.pending.len() - i,
        {
            out.push(self.pending_requests[i].duplicate());
            i = i + 1;
            proof {
                assert(out@ =~= self@.pending.take(i as int));
            }
        }
        proof {
            assert(self@.pending.take(i as int) =~= self@.pending);
        }
        out
    }

    /// Admin-only: adds a proposal `text`, without votes.
    pub fn add_dao_proposal(&mut self, caller: &Principal, text: String) -> (r: String)
        requires
            old(self).wf(),
            old(self)@.admits_admin(*caller),
        ensures
            final(self).wf(),
            final(self)@ == old(self)@.with_proposal(text),
            r@ == Reply::ProposalAdded.message(),
    {
        let ghost before = self@;
        self.dao_proposals.push(DaoProposal { text, yes_votes: 0, no_votes: 0 });
        proof {
            assert(self@ =~= before.with_proposal(text));
        }
        Reply::ProposalAdded.text()
    }

    /// Decides whether `caller` may vote `yes` (or no) on proposal `index`:
    /// not when it is anonymous, nor when the vote would take the count past
    /// the largest `u32`.
    pub fn vote_guard(&self, caller: &Principal, index: u64, yes: bool) -> (r: Result<
        (),
        Denial,
    >)
        requires
            self.wf(),
        ensures
            r is Ok <==> !caller.is_anonymous_spec() && self@.vote_fits(index, yes),
            r matches Err(d) ==> d == (if caller.is_anonymous_spec() {
                Denial::Anonymous
            } else {
                Denial::CountOverflow
            }),
    {
        if caller.is_anonymous() {
            return Err(Denial::Anonymous);
        }
        let i = index as usize;
        if i < self.dao_proposals.len() {
            let p = &self.dao_proposals[i];
            let count = if yes {
                p.yes_votes
            } else {
                p.no_votes
            };
            if count == u32::MAX {
                return Err(Denial::CountOverflow);
            }
        }
        Ok(())
    }

    /// Casts a vote of `caller` on proposal `index`: yes when `yes`, no
    /// otherwise.
    pub fn vote_on_proposal(&mut self, caller: &Principal, index: u64, yes: bool) -> (r: String)
        requires
            old(self).wf(),
            !caller.is_anonymous_spec(),
            old(self)@.vote_fits(index, yes),
        ensures
            final(self).wf(),
            final(self)@ == old(self)@.voted(index, yes),
            r@ == old(self)@.vote_reply(index).message(),
    {
        let ghost before = self@;
        let i = index as usize;
        if i < self.dao_proposals.len() {
            let mut p = self.dao_proposals[i].duplicate();
            if yes {
                p.yes_votes = p.yes_votes + 1;
            } else {
                p.no_votes = p.no_votes + 1;
            }
            self.dao_proposals.set(i, p);
            proof {
                assert(self@ =~= before.voted(index, yes));
            }
            Reply::VoteCast.text()
        } else {
            Reply::VoteProposalNotFound.text()
        }
    }

    /// Every proposal with its vote counts, in the order they were added.
    pub fn view_dao_proposals(&self) -> (r: Vec<DaoProposal>)
        requires
            self.wf(),
        ensures
            r@ == self@.proposals,
    {
        let mut out: Vec<DaoProposal> = Vec::new();
        let mut i: usize = 0;
        while i < self.dao_proposals.len()
            invariant
                0 <= i <= self@.proposals.len(),
                out@ == self@.proposals.take(i as int),
            decreases self@.proposals.len() - i,
        {
            out.push(self.dao_proposals[i].duplicate());
            i = i + 1;
            proof {
                assert(out@ =~= self@.proposals.take(i as int));
            }
        }
        proof {
            assert(self@.proposals.take(i as int) =~= self@.proposals);
        }
        out
    }

    /// Admin-only: bans `instructor` from asking for new courses.
    pub fn ban_instructor(&mut self, caller: &Principal, instructor: &Principal) -> (r: String)
        requires
            old(self).wf(),
            old(self)@.admits_admin(*caller),
        ensures
            final(self).wf(),
            final(self)@ == old(self)@.with_banned(*instructor),
            r@ == old(self)@.ban_reply(*instructor).message(),
    {
        if !contains_principal(&self.banned_instructors, instructor) {
            let ghost before = self@;
            self.banned_instructors.push(*instructor);
            proof {
                assert(self@ =~= before.with_banned(*instructor));
                assert(self@.banned.no_duplicates()) by {
                    assert forall|a: int, b: int|
                        0 <= a < self@.banned.len() && 0 <= b < self@.banned.len() && a != b
                        implies self@.banned[a] != self@.banned[b] by {
                        if a == before.banned.len() {
                            assert(before.banned[b] == self@.banned[b]);
                        } else if b == before.banned.len() {
                            assert(before.banned[a] == self@.banned[a]);
                        } else {
                            assert(before.banned[a] == self@.banned[a]);
                            assert(before.banned[b] == self@.banned[b]);
                        }
                    }
                }
            }
            Reply::InstructorBanned.text()
        } else {
            Reply::InstructorAlreadyBanned.text()
        }
    }

    /// Admin-only: removes `student` from the platform, so that it can no
    /// longer enroll.
    pub fn remove_student(&mut self, caller: &Principal, student: &Principal) -> (r: String)
        requires
            old(self).wf(),
            old(self)@.admits_admin(*caller),
        ensures
            final(self).wf(),
            final(self)@ == old(self)@.with_removed(*student),
            r@ == old(self)@.remove_reply(*student).message(),
    {
        if !contains_principal(&self.removed_students, student) {
            let ghost before = self@;
            self.removed_students.push(*student);
            proof {
                assert(self@ =~= before.with_removed(*student));
                assert(self@.removed.no_duplicates()) by {
                    assert forall|a: int, b: int|
                        0 <= a < self@.removed.len() && 0 <= b < self@.removed.len() && a != b
                        implies self@.removed[a] != self@.removed[b] by {
                        if a == before.removed.len() {
                            assert(before.removed[b] == self@.removed[b]);
                        } else if b == before.removed.len() {
                            assert(before.removed[a] == self@.removed[a]);
                        } else {
                            assert(before.removed[a] == self@.removed[a]);
                            assert(before.removed[b] == self@.removed[b]);
                        }
                    }
                }
            }
            Reply::StudentRemoved.text()
        } else {
            Reply::StudentAlreadyRemoved.text()
        }
    }

    /// Admin-only: sets the reward per course to `amount` tokens.
    pub fn set_token_reward(&mut self, caller: &Principal, amount: u64) -> (r: String)
        requires
            old(self).wf(),
            old(self)@.admits_admin(*caller),
        ensures
            final(self).wf(),
            final(self)@ == old(self)@.with_reward(amount),
            r@ == Reply::TokenRewardSet.message(),
    {
        self.config.reward_per_course = amount;
        proof {
            assert(self@ =~= old(self)@.with_reward(amount));
        }
        Reply::TokenRewardSet.text()
    }

    /// Admin-only: sets the cost to enroll to `amount` tokens.
    pub fn set_cost_to_enroll(&mut self, caller: &Principal, amount: u64) -> (r: String)
        requires
            old(self).wf(),
            old(self)@.admits_admin(*caller),
        ensures
            final(self).wf(),
            final(self)@ == old(self)@.with_cost(amount),
            r@ == Reply::EnrollCostSet.message(),
    {
        self.config.cost_to_enroll = amount;
        proof {
            assert(self@ =~= old(self)@.with_cost(amount));
        }
        Reply::EnrollCostSet.text()
    }

    /// The token configuration.
    pub fn token_config(&self) -> (r: TokenConfig)
        ensures
            r == self@.config,
    {
        self.config
    }

    /// The platform's statistics.
    pub fn get_platform_stats(&self) -> (r: PlatformStats)
        requires
            self.wf(),
        ensures
            r == self@.stats(),
    {
        let ghost es = self@.enrollments;
        let mut passed: usize = 0;
        let mut i: usize = 0;
        while i < self.enrollments.len()
            invariant
                es == self@.enrollments,
                0 <= i <= es.len(),
                passed == es.take(i as int).filter(is_certificate()).len(),
            decreases es.len() - i,
        {
            let e = &self.enrollments[i];
            proof {
                assert(es.take(i + 1) =~= es.take(i as int).push(*e));
                es.take(i as int).lemma_filter_push(*e, is_certificate());
                es.take(i as int).lemma_filter_len(is_certificate());
            }
            if e.passed == Some(true) {
                passed = passed + 1;
            }
            i = i + 1;
        }
        proof {
            assert(es.take(i as int) =~= es);
        }
        PlatformStats {
            total_students: self.students.len() as u64,
            total_courses: self.courses.len() as u64,
            certificates_issued: passed as u64,
        }
    }
}

/// Whether `p` occurs in `v`.
fn contains_principal(v: &Vec<Principal>, p: &Principal) -> (r: bool)
    ensures
        r == v@.contains(*p),
{
    let mut i: usize = 0;
    while i < v.len()
        invariant
            0 <= i <= v@.len(),
            forall|j: int| 0 <= j < i ==> v@[j] != *p,
        decreases v@.len() - i,
    {
        if v[i] == *p {
            return true;
        }
        i = i + 1;
    }
    false
}

} // verus!
