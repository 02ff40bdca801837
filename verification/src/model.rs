use vstd::prelude::*;

verus! {

/// Chief duty of a teacher (MADDE 6/4): department chief or workshop/laboratory chief.
#[derive(Debug, Clone, Copy, PartialEq, Eq, Structural)]
pub enum ChiefType {
    NotChief,
    Department,
    WorkshopLab,
}

/// Planning-maintenance-repair hours that a chief duty carries (MADDE 6/4).
pub open spec fn chief_hours(c: ChiefType) -> i64 {
    match c {
        ChiefType::NotChief => 0,
        ChiefType::Department => 10,
        ChiefType::WorkshopLab => 6,
    }
}

impl ChiefType {
    /// Weekly hours of the duty: department chief 10, workshop/laboratory chief 6, none 0.
    pub fn weekly_hours(self) -> (h: i64)
        ensures
            h == chief_hours(self),
    {
        match self {
            ChiefType::NotChief => 0,
            ChiefType::Department => 10,
            ChiefType::WorkshopLab => 6,
        }
    }
}

#[derive(Debug, Clone, Copy, PartialEq, Eq, Structural)]
pub enum EmploymentType {
    Tenured,
    Contracted,
}

/// The teaching load of a teacher on a day.
#[derive(Debug, Clone, Copy, PartialEq, Eq, Structural)]
pub struct TeacherLoad {
    pub base_hours: i64,
    pub max_extra_hours: i64,
    pub other_extra_hours: i64,
    pub chief_type: ChiefType,
    pub employment_type: EmploymentType,
}

/// A teacher as the teacher screen sends it.
#[derive(Debug, Clone)]
pub struct NewTeacher {
    pub first_name: String,
    pub last_name: String,
    pub registry_no: String,
    pub field: String,
    pub branches: Vec<String>,
    pub employment_type: String,
    pub base_hours: i64,
    pub max_extra_hours: i64,
    pub other_extra_hours: i64,
    pub chief_type: String,
    pub is_active: bool,
}

/// A stored teacher row; `branches` holds a JSON array of strings.
#[derive(Debug, Clone)]
pub struct Teacher {
    pub id: i64,
    pub first_name: String,
    pub last_name: String,
    pub registry_no: String,
    pub field: String,
    pub branches: String,
    pub employment_type: String,
    pub base_hours: i64,
    pub max_extra_hours: i64,
    pub other_extra_hours: i64,
    pub chief_type: String,
    pub is_active: i64,
}

/// The identity part of a new teacher.
#[derive(Debug, Clone)]
pub struct NewTeacherProfile {
    pub first_name: String,
    pub last_name: String,
    pub registry_no: String,
    pub field: String,
    pub branches: Vec<String>,
    pub is_active: bool,
}

/// A student as the student screen sends it.
#[derive(Debug, Clone)]
pub struct NewStudent {
    pub first_name: String,
    pub last_name: String,
    pub student_no: Option<String>,
    pub grade: String,
    pub branch: String,
    pub submitted_at: Option<String>,
    pub term: String,
}

/// A stored student with the company of its open placement.
#[derive(Debug, Clone)]
pub struct Student {
    pub id: i64,
    pub first_name: String,
    pub last_name: String,
    pub student_no: Option<String>,
    pub grade: String,
    pub branch: String,
    pub company_id: Option<i64>,
    pub submitted_at: Option<String>,
    pub term: String,
}

/// One hour of a weekday: `day` 1 (Monday) to 5 (Friday), `hour` the lesson hour.
#[derive(Debug, Clone, Copy, PartialEq, Eq, Structural)]
pub struct Slot {
    pub day: i64,
    pub hour: i64,
}

impl Slot {
    pub fn new(day: i64, hour: i64) -> (s: Slot)
        ensures
            s.day == day,
            s.hour == hour,
    {
        Slot { day, hour }
    }
}

/// A broken rule found while checking a plan, with its legal basis if any.
#[derive(Debug, Clone)]
pub struct Violation {
    pub message: String,
    pub legal_basis: Option<String>,
}

/// A stored teacher and the load that holds for it on the day asked for.
#[derive(Debug, Clone)]
pub struct TeacherWithLoadAsOf {
    pub teacher: Teacher,
    pub load: TeacherLoad,
}

/// A teacher with the capacity derived from the regulation.
#[derive(Debug, Clone)]
pub struct TeacherWithCapacity {
    pub teacher: Teacher,
    /// Chief duty hours (MADDE 6/4): department chief 10, workshop/lab chief 6, none 0.
    pub chief_hours: i64,
    /// The MADDE 15/2 ceiling for the school type and district.
    pub statutory_cap: i64,
    /// Weekly hours left for coordination.
    pub capacity: i64,
}

/// The placement of a company in a teacher's week (open projection row).
#[derive(Debug, Clone)]
pub struct Assignment {
    pub id: i64,
    pub teacher_id: i64,
    pub company_id: i64,
    pub term: String,
    /// 1 = Monday .. 5 = Friday.
    pub visit_day: i64,
    /// Lesson hour of the visit.
    pub visit_hour: i64,
    pub is_forced: i64,
    pub force_reason: Option<String>,
}

/// A placement as the assignment screen sends it.
#[derive(Debug, Clone)]
pub struct NewAssignment {
    pub teacher_id: i64,
    pub company_id: i64,
    pub visit_day: i64,
    pub visit_hour: i64,
    pub is_forced: bool,
    pub force_reason: Option<String>,
}

/// One free hour of a teacher: a row means the hour is free.
#[derive(Debug, Clone, Copy, PartialEq, Eq, Structural)]
pub struct AvailabilitySlot {
    pub teacher_id: i64,
    /// 1 = Monday .. 5 = Friday.
    pub day_of_week: i64,
    pub hour: i64,
}

/// A weekday on which a class is at the workplaces.
#[derive(Debug, Clone)]
pub struct ClassWorkplaceDay {
    pub grade: String,
    /// 1 = Monday .. 5 = Friday.
    pub day_of_week: i64,
}

/// The hours awarded to a company for a term (open projection row).
#[derive(Debug, Clone)]
pub struct CompanyTermHours {
    pub id: i64,
    pub company_id: i64,
    pub term: String,
    /// The ceiling computed when the award was decided.
    pub max_hours_snapshot: i64,
    /// Awarded hours; 0 for an honorary visit.
    pub awarded_hours: i64,
    pub is_honorary: i64,
    /// Locked rows are kept by automatic distribution.
    pub is_locked: i64,
    pub notes: String,
}

/// One row of the award screen as it is sent; the ceiling it carries is
/// not used (the server computes it).
#[derive(Debug, Clone)]
pub struct HoursInput {
    pub company_id: i64,
    pub max_hours_snapshot: i64,
    pub awarded_hours: i64,
    pub is_honorary: bool,
    pub is_locked: bool,
    pub notes: String,
}

/// What removing a company did: a company with history is deactivated
/// instead of deleted.
#[derive(Debug, Clone, Copy, PartialEq, Eq, Structural)]
pub struct CompanyRemoval {
    pub soft_deleted: bool,
}

} // verus!
