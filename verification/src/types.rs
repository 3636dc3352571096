//! The records of the transfer-articulation service, as plain values.
//!
//! Field names follow the service's documents. Free-form values and unit
//! counts are not part of these records: nothing here reads them.

use vstd::prelude::*;

verus! {

/// An institution known to the service.
#[derive(Default, Debug, Clone, PartialEq)]
pub struct Institution {
    pub id: i64,
    pub names: Vec<Name>,
    pub code: String,
    pub prefers2016legacy_report: bool,
    pub is_community_college: bool,
    pub category: i64,
    pub term_type: i64,
    pub begin_id: i64,
    pub term_type_academic_years: Vec<TermTypeAcademicYear>,
    pub end_id: Option<i64>,
}

/// One of the names an institution has gone by.
#[derive(Default, Debug, Clone, PartialEq)]
pub struct Name {
    pub name: String,
    pub has_departments: bool,
    pub hide_in_list: bool,
    pub from_year: Option<i64>,
    pub alternate_institution_id: Option<i64>,
}

#[derive(Default, Debug, Clone, PartialEq)]
pub struct TermTypeAcademicYear {
    pub term_type: i64,
    pub from_year: i64,
}

/// An agreement between the receiving institution and one other institution.
#[derive(Default, Debug, Clone, PartialEq)]
pub struct Agreement {
    pub institution_parent_id: i64,
    pub institution_name: String,
    pub code: String,
    pub is_community_college: bool,
    pub sending_year_ids: Vec<i64>,
    pub receiving_year_ids: Vec<i64>,
}

#[derive(Default, Debug, Clone, PartialEq)]
pub struct Year {
    pub id: i64,
    pub fall_year: i64,
}

/// The majors for which an agreement publishes articulations.
#[derive(Default, Debug, Clone, PartialEq)]
pub struct AvailableMajors {
    pub reports: Vec<Report>,
    pub all_reports: Vec<AllReport>,
}

/// A major of an agreement: its label and the key of its articulations.
#[derive(Default, Debug, Clone, PartialEq)]
pub struct Report {
    pub label: String,
    pub key: String,
    pub owner_institution_id: i64,
}

#[derive(Default, Debug, Clone, PartialEq)]
pub struct AllReport {
    pub label: String,
    pub key: String,
    pub owner_institution_id: i64,
}

/// The envelope around an articulation report.
#[derive(Default, Debug, Clone, PartialEq)]
pub struct ResultContainer {
    pub result: Result,
    pub is_successful: bool,
}

/// An articulation report. `articulations` is itself an encoded document.
#[derive(Default, Debug, Clone, PartialEq)]
pub struct Result {
    pub name: String,
    pub type_field: String,
    pub publish_date: String,
    pub receiving_institution: String,
    pub sending_institution: String,
    pub academic_year: String,
    pub template_assets: String,
    pub articulations: String,
    pub catalog_year: String,
}

#[derive(Default, Debug, Clone, PartialEq)]
pub struct ArticulationContainer {
    pub template_cell_id: String,
    pub articulation: Articulation,
    pub receiving_attributes: ReceivingAttributes,
}

/// One equivalency rule: a receiving-side requirement, named by the payload
/// that `type_field` selects, and what satisfies it on the sending side.
#[derive(Default, Debug, Clone, PartialEq)]
pub struct Articulation {
    pub type_field: String,
    pub course: Option<Course>,
    pub series: Option<Series>,
    pub sending_articulation: SendingArticulation,
    pub requirement: Option<Requirement>,
}

#[derive(Default, Debug, Clone, PartialEq)]
pub struct Course {
    pub id: String,
    pub position: i64,
    pub course_identifier_parent_id: i64,
    pub course_title: String,
    pub course_number: String,
    pub prefix: String,
    pub prefix_parent_id: i64,
    pub prefix_description: String,
    pub department_parent_id: i64,
    pub department: String,
    pub begin: String,
    pub end: String,
    pub pathways: Vec<Pathway>,
}

#[derive(Default, Debug, Clone, PartialEq)]
pub struct Series {
    pub conjunction: String,
    pub name: String,
    pub courses: Vec<Course>,
}

#[derive(Default, Debug, Clone, PartialEq)]
pub struct Pathway {
    pub pathway_name: String,
    pub pathway_id: i64,
    pub pathway_code: String,
    pub expectation_name: String,
    pub expectation_id: i64,
    pub subexpectation_id: i64,
}

/// The sending side of an articulation: course groups, and the spans that
/// combine ranges of them.
#[derive(Default, Debug, Clone, PartialEq)]
pub struct SendingArticulation {
    pub items: Vec<Item>,
    pub course_group_conjunctions: Vec<CourseGroupConjunction>,
    pub type_field: String,
}

/// A course group: courses combined by one conjunction, placed among its
/// siblings by `position`.
#[derive(Default, Debug, Clone, PartialEq)]
pub struct Item {
    pub course_conjunction: String,
    pub items: Vec<Item2>,
    pub position: i64,
    pub type_field: String,
}

/// A course of a course group, placed within the group by `position`.
#[derive(Default, Debug, Clone, PartialEq)]
pub struct Item2 {
    pub course_identifier_parent_id: i64,
    pub course_title: String,
    pub course_number: String,
    pub prefix: String,
    pub prefix_parent_id: i64,
    pub prefix_description: String,
    pub department_parent_id: i64,
    pub department: String,
    pub begin: String,
    pub end: String,
    pub position: i64,
    pub type_field: String,
}

/// A span: the course groups from `sending_course_group_begin_position` to
/// `sending_course_group_end_position`, both included and both counted in the
/// groups' sorted order, combined by one conjunction.
#[derive(Default, Debug, Clone, PartialEq)]
pub struct CourseGroupConjunction {
    pub id: String,
    pub sending_articulation_id: String,
    pub group_conjunction: String,
    pub sending_course_group_begin_position: i64,
    pub sending_course_group_end_position: i64,
}

#[derive(Default, Debug, Clone, PartialEq)]
pub struct Requirement {
    pub name: String,
}

#[derive(Default, Debug, Clone, PartialEq)]
pub struct ReceivingAttributes {
    pub type_field: String,
}

} // verus!
