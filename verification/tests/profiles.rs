use dire_engine::materialization::common::tbox_spo_sco_materialization;
use dire_engine::materialization::rdfs::rdfs;
use dire_engine::materialization::rdfspp::rdfspp;
use dire_engine::model::consts::constants::owl::{
    inverseOf, Class, ObjectProperty, TransitiveProperty,
};
use dire_engine::model::consts::constants::rdfs::{
    domain, range, subClassOf, subPropertyOf, type_,
};
use dire_engine::model::consts::constants::MAX_CONST;

type Triple = (u32, u32, u32);

const EMPLOYEE: u32 = MAX_CONST + 1;
const FACULTY: u32 = MAX_CONST + 2;
const FULL_PROFESSOR: u32 = MAX_CONST + 3;
const PROFESSOR: u32 = MAX_CONST + 4;
const HEAD_OF: u32 = MAX_CONST + 5;
const MEMBER_OF: u32 = MAX_CONST + 6;
const WORKS_FOR: u32 = MAX_CONST + 7;
const EMPLOYS: u32 = MAX_CONST + 8;
const TEACHER_OF: u32 = MAX_CONST + 9;
const COURSE: u32 = MAX_CONST + 10;
const FP7: u32 = MAX_CONST + 11;
const FP8: u32 = MAX_CONST + 12;
const FP9: u32 = MAX_CONST + 13;
const FP10: u32 = MAX_CONST + 14;
const DEPARTMENT_0: u32 = MAX_CONST + 15;
const COURSE_10: u32 = MAX_CONST + 16;

fn university_tbox() -> Vec<Triple> {
    vec![
        (EMPLOYEE, type_, Class),
        (FACULTY, type_, Class),
        (FACULTY, subClassOf, EMPLOYEE),
        (FULL_PROFESSOR, type_, Class),
        (FULL_PROFESSOR, subClassOf, PROFESSOR),
        (PROFESSOR, type_, Class),
        (PROFESSOR, subClassOf, FACULTY),
        (HEAD_OF, type_, ObjectProperty),
        (HEAD_OF, subPropertyOf, WORKS_FOR),
        (MEMBER_OF, type_, ObjectProperty),
        (WORKS_FOR, type_, ObjectProperty),
        (WORKS_FOR, subPropertyOf, MEMBER_OF),
        (WORKS_FOR, type_, TransitiveProperty),
        (EMPLOYS, type_, ObjectProperty),
        (EMPLOYS, inverseOf, WORKS_FOR),
        (TEACHER_OF, type_, ObjectProperty),
        (TEACHER_OF, domain, FACULTY),
        (TEACHER_OF, range, COURSE),
    ]
}

fn university_abox() -> Vec<Triple> {
    vec![
        (FP7, HEAD_OF, DEPARTMENT_0),
        (FP7, type_, FULL_PROFESSOR),
        (FP7, TEACHER_OF, COURSE_10),
        (FP7, WORKS_FOR, FP8),
        (FP8, WORKS_FOR, FP9),
        (FP9, WORKS_FOR, FP10),
    ]
}

fn sorted(mut v: Vec<Triple>) -> Vec<Triple> {
    v.sort_unstable();
    v.dedup();
    v
}

#[test]
fn rdfs_closes_the_university_abox() {
    let (tbox, lists) = tbox_spo_sco_materialization(&university_tbox());
    let actual = rdfs(&tbox, &lists, &university_abox());
    let mut expected = university_abox();
    expected.extend(vec![
        (FP7, WORKS_FOR, DEPARTMENT_0),
        (FP7, MEMBER_OF, DEPARTMENT_0),
        (FP7, MEMBER_OF, FP8),
        (FP8, MEMBER_OF, FP9),
        (FP9, MEMBER_OF, FP10),
        (FP7, type_, PROFESSOR),
        (FP7, type_, FACULTY),
        (FP7, type_, EMPLOYEE),
        (COURSE_10, type_, COURSE),
    ]);
    assert_eq!(actual.len(), 15);
    assert_eq!(sorted(expected), sorted(actual));
}

#[test]
fn rdfspp_closes_the_university_abox() {
    let (tbox, lists) = tbox_spo_sco_materialization(&university_tbox());
    let actual = rdfspp(&tbox, &lists, &university_abox());
    let mut expected = university_abox();
    expected.extend(vec![
        (FP7, WORKS_FOR, DEPARTMENT_0),
        (FP7, MEMBER_OF, DEPARTMENT_0),
        (FP7, MEMBER_OF, FP8),
        (FP8, MEMBER_OF, FP9),
        (FP9, MEMBER_OF, FP10),
        (FP7, type_, PROFESSOR),
        (FP7, type_, FACULTY),
        (FP7, type_, EMPLOYEE),
        (FP7, WORKS_FOR, FP9),
        (FP7, WORKS_FOR, FP10),
        (FP8, WORKS_FOR, FP10),
        (FP7, MEMBER_OF, FP9),
        (FP7, MEMBER_OF, FP10),
        (FP8, MEMBER_OF, FP10),
        (DEPARTMENT_0, EMPLOYS, FP7),
        (FP10, EMPLOYS, FP9),
        (FP10, EMPLOYS, FP8),
        (FP10, EMPLOYS, FP7),
        (FP9, EMPLOYS, FP7),
        (FP9, EMPLOYS, FP8),
        (FP8, EMPLOYS, FP7),
        (COURSE_10, type_, COURSE),
    ]);
    assert_eq!(sorted(expected), sorted(actual));
}
