use revercce::compiler::{
    classify, compile, render_expression, render_group, render_span, ArticulationKind, Compiled,
    CompileError, Conjunction, Expression,
};
use revercce::types::{
    Articulation, Course, CourseGroupConjunction, Item, Item2, Requirement, SendingArticulation,
    Series,
};

fn course(position: i64, title: &str) -> Item2 {
    Item2 { position, course_title: title.to_string(), ..Item2::default() }
}

fn group(position: i64, conjunction: &str, titles: &[&str]) -> Item {
    Item {
        position,
        course_conjunction: conjunction.to_string(),
        items: titles.iter().enumerate().map(|(i, t)| course(i as i64, t)).collect(),
        ..Item::default()
    }
}

fn span(begin: i64, end: i64, conjunction: &str) -> CourseGroupConjunction {
    CourseGroupConjunction {
        group_conjunction: conjunction.to_string(),
        sending_course_group_begin_position: begin,
        sending_course_group_end_position: end,
        ..CourseGroupConjunction::default()
    }
}

fn sending(items: Vec<Item>, spans: Vec<CourseGroupConjunction>) -> SendingArticulation {
    SendingArticulation { items, course_group_conjunctions: spans, ..SendingArticulation::default() }
}

fn course_record(title: &str, sending_articulation: SendingArticulation) -> Articulation {
    Articulation {
        type_field: "Course".to_string(),
        course: Some(Course { course_title: title.to_string(), ..Course::default() }),
        sending_articulation,
        ..Articulation::default()
    }
}

fn text(line: &str) -> Result<Expression, CompileError> {
    Ok(Expression::Text(line.to_string()))
}

#[test]
fn two_single_course_groups_under_one_span_are_parenthesized() {
    let s = sending(
        vec![group(0, "And", &["MATH 1A"]), group(1, "And", &["MATH 1B"])],
        vec![span(0, 1, "And")],
    );
    assert_eq!(render_expression(&s), text("(MATH 1A AND MATH 1B)"));
}

#[test]
fn zero_sending_items_is_no_articulation() {
    let s = sending(vec![], vec![]);
    assert_eq!(render_expression(&s), Ok(Expression::NoArticulation));
    assert_ne!(render_expression(&s), text(""));
}

#[test]
fn zero_sending_items_ignores_spans() {
    let s = sending(vec![], vec![span(0, 5, "nonsense")]);
    assert_eq!(render_expression(&s), Ok(Expression::NoArticulation));
}

#[test]
fn single_group_ignores_malformed_spans() {
    let s = sending(
        vec![group(0, "Or", &["CHEM 1A", "CHEM 1B"])],
        vec![span(-4, 17, "Xor"), span(3, 9, "And")],
    );
    assert_eq!(render_expression(&s), text("[CHEM 1A OR CHEM 1B]"));
}

#[test]
fn single_course_group_is_bare() {
    assert_eq!(render_group(&group(0, "And", &["PHYS 4A"])), Ok("PHYS 4A".to_string()));
}

#[test]
fn two_course_group_is_bracketed() {
    assert_eq!(
        render_group(&group(0, "And", &["PHYS 4A", "PHYS 4B"])),
        Ok("[PHYS 4A AND PHYS 4B]".to_string())
    );
}

#[test]
fn three_course_group_joins_with_or() {
    assert_eq!(
        render_group(&group(0, "Or", &["A", "B", "C"])),
        Ok("[A OR B OR C]".to_string())
    );
}

#[test]
fn courses_are_ordered_by_position() {
    let g = Item {
        course_conjunction: "And".to_string(),
        items: vec![course(2, "C"), course(0, "A"), course(1, "B")],
        ..Item::default()
    };
    assert_eq!(render_group(&g), Ok("[A AND B AND C]".to_string()));
}

#[test]
fn courses_of_equal_position_keep_arrival_order() {
    let g = Item {
        course_conjunction: "And".to_string(),
        items: vec![course(1, "X"), course(0, "Y"), course(1, "Z"), course(0, "W")],
        ..Item::default()
    };
    assert_eq!(render_group(&g), Ok("[Y AND W AND X AND Z]".to_string()));
}

#[test]
fn negative_positions_sort_first() {
    let g = Item {
        course_conjunction: "Or".to_string(),
        items: vec![course(5, "P"), course(-3, "N"), course(i64::MIN, "M"), course(i64::MAX, "Q")],
        ..Item::default()
    };
    assert_eq!(render_group(&g), Ok("[M OR N OR P OR Q]".to_string()));
}

#[test]
fn empty_group_is_reported() {
    assert_eq!(render_group(&group(0, "And", &[])), Err(CompileError::EmptyGroup));
    let s = sending(vec![group(0, "And", &["A"]), group(1, "And", &[])], vec![span(0, 1, "And")]);
    assert_eq!(render_expression(&s), Err(CompileError::EmptyGroup));
}

#[test]
fn empty_group_is_reported_before_unknown_conjunction() {
    let s = sending(vec![group(0, "Nand", &["A"]), group(1, "And", &[])], vec![]);
    assert_eq!(render_expression(&s), Err(CompileError::EmptyGroup));
    assert_eq!(render_group(&group(0, "Nand", &[])), Err(CompileError::EmptyGroup));
}

#[test]
fn unknown_group_conjunction_is_reported() {
    assert_eq!(render_group(&group(0, "Nand", &["A"])), Err(CompileError::UnknownConjunction));
    let s = sending(vec![group(0, "", &["A"])], vec![]);
    assert_eq!(render_expression(&s), Err(CompileError::UnknownConjunction));
}

#[test]
fn unknown_span_conjunction_is_reported() {
    let s = sending(
        vec![group(0, "And", &["A"]), group(1, "And", &["B"])],
        vec![span(0, 1, "Either")],
    );
    assert_eq!(render_expression(&s), Err(CompileError::UnknownConjunction));
    assert_eq!(
        render_span(&vec!["A".to_string()], &span(0, 9, "Either")),
        Err(CompileError::UnknownConjunction)
    );
}

#[test]
fn span_out_of_range_is_reported() {
    let groups = vec![group(0, "And", &["A"]), group(1, "And", &["B"])];
    for (b, e) in [(0, 2), (-1, 1), (1, 2), (-2, -1), (0, i64::MAX), (i64::MIN, 0)] {
        let s = sending(groups.clone(), vec![span(0, 1, "Or"), span(b, e, "And")]);
        assert_eq!(render_expression(&s), Err(CompileError::SpanOutOfRange));
    }
    let lines = vec!["A".to_string(), "B".to_string()];
    assert_eq!(render_span(&lines, &span(1, 2, "And")), Err(CompileError::SpanOutOfRange));
}

#[test]
fn span_with_begin_after_end_covers_nothing() {
    let lines = vec!["A".to_string(), "B".to_string()];
    assert_eq!(render_span(&lines, &span(1, 0, "And")), Ok(String::new()));
    assert_eq!(render_span(&lines, &span(7, -3, "Or")), Ok(String::new()));
    let s = sending(
        vec![group(0, "And", &["A"]), group(1, "And", &["B"])],
        vec![span(0, 0, "And"), span(5, 4, "And"), span(1, 1, "Or")],
    );
    assert_eq!(render_expression(&s), text("A, , B"));
}

#[test]
fn span_over_one_group_has_no_parentheses() {
    let lines = vec!["A".to_string(), "[B OR C]".to_string()];
    assert_eq!(render_span(&lines, &span(1, 1, "And")), Ok("[B OR C]".to_string()));
    assert_eq!(render_span(&lines, &span(0, 0, "Or")), Ok("A".to_string()));
}

#[test]
fn span_over_two_groups_has_parentheses() {
    let lines = vec!["A".to_string(), "[B OR C]".to_string(), "D".to_string()];
    assert_eq!(render_span(&lines, &span(0, 1, "And")), Ok("(A AND [B OR C])".to_string()));
    assert_eq!(render_span(&lines, &span(0, 2, "Or")), Ok("(A OR [B OR C] OR D)".to_string()));
}

#[test]
fn spans_are_joined_in_arrival_order() {
    let s = sending(
        vec![
            group(0, "And", &["A"]),
            group(1, "Or", &["B", "C"]),
            group(2, "And", &["D"]),
            group(3, "And", &["E", "F"]),
        ],
        vec![span(2, 3, "Or"), span(0, 1, "And")],
    );
    assert_eq!(render_expression(&s), text("(D OR [E AND F]), (A AND [B OR C])"));
}

#[test]
fn no_span_over_several_groups_is_the_empty_text() {
    let s = sending(vec![group(0, "And", &["A"]), group(1, "And", &["B"])], vec![]);
    assert_eq!(render_expression(&s), text(""));
}

#[test]
fn reordering_groups_does_not_change_the_expression() {
    let a = group(0, "And", &["A"]);
    let b = group(1, "Or", &["B", "C"]);
    let c = group(2, "And", &["D"]);
    let spans = vec![span(0, 1, "Or"), span(2, 2, "And")];
    let expected = text("(A OR [B OR C]), D");
    let orders = [
        vec![a.clone(), b.clone(), c.clone()],
        vec![a.clone(), c.clone(), b.clone()],
        vec![b.clone(), a.clone(), c.clone()],
        vec![b.clone(), c.clone(), a.clone()],
        vec![c.clone(), a.clone(), b.clone()],
        vec![c.clone(), b.clone(), a.clone()],
    ];
    for items in orders {
        assert_eq!(render_expression(&sending(items, spans.clone())), expected);
    }
}

#[test]
fn span_bounds_index_the_sorted_groups_not_the_positions() {
    let s = sending(
        vec![group(40, "And", &["LATE"]), group(10, "And", &["EARLY"])],
        vec![span(0, 0, "And"), span(1, 1, "And"), span(0, 1, "Or")],
    );
    assert_eq!(render_expression(&s), text("EARLY, LATE, (EARLY OR LATE)"));
}

#[test]
fn compiling_twice_gives_the_same_result() {
    let record = course_record(
        "MATH 101",
        sending(
            vec![group(1, "Or", &["M 2", "M 3"]), group(0, "And", &["M 1"])],
            vec![span(0, 1, "And")],
        ),
    );
    let first = compile(&record);
    let second = compile(&record);
    assert_eq!(first, second);
    assert_eq!(
        first,
        Ok(Compiled {
            receiving_name: "MATH 101".to_string(),
            expression: Expression::Text("(M 1 AND [M 2 OR M 3])".to_string()),
        })
    );
}

#[test]
fn series_is_named_by_its_name() {
    let record = Articulation {
        type_field: "Series".to_string(),
        series: Some(Series {
            name: "PHYS 7A, PHYS 7B".to_string(),
            courses: vec![Course { course_title: "never shown".to_string(), ..Course::default() }],
            ..Series::default()
        }),
        course: Some(Course { course_title: "not this".to_string(), ..Course::default() }),
        sending_articulation: sending(vec![group(0, "And", &["PHYS 4A"])], vec![]),
        ..Articulation::default()
    };
    assert_eq!(
        compile(&record),
        Ok(Compiled {
            receiving_name: "PHYS 7A, PHYS 7B".to_string(),
            expression: Expression::Text("PHYS 4A".to_string()),
        })
    );
}

#[test]
fn requirement_is_named_by_its_name() {
    let record = Articulation {
        type_field: "Requirement".to_string(),
        requirement: Some(Requirement { name: "American History".to_string() }),
        sending_articulation: sending(vec![], vec![]),
        ..Articulation::default()
    };
    assert_eq!(
        compile(&record),
        Ok(Compiled {
            receiving_name: "American History".to_string(),
            expression: Expression::NoArticulation,
        })
    );
}

#[test]
fn unknown_kind_is_reported_with_its_tag() {
    let record = Articulation {
        type_field: "Elective".to_string(),
        course: Some(Course { course_title: "X".to_string(), ..Course::default() }),
        sending_articulation: sending(vec![group(0, "And", &["A"])], vec![]),
        ..Articulation::default()
    };
    assert_eq!(
        compile(&record),
        Err(CompileError::UnknownArticulationKind("Elective".to_string()))
    );
}

#[test]
fn unknown_kind_is_reported_before_anything_else() {
    let record = Articulation {
        type_field: "course".to_string(),
        sending_articulation: sending(vec![group(0, "Nand", &[])], vec![]),
        ..Articulation::default()
    };
    assert_eq!(compile(&record), Err(CompileError::UnknownArticulationKind("course".to_string())));
    let empty = Articulation::default();
    assert_eq!(compile(&empty), Err(CompileError::UnknownArticulationKind(String::new())));
}

#[test]
fn missing_payload_is_reported() {
    for tag in ["Course", "Series", "Requirement"] {
        let record = Articulation {
            type_field: tag.to_string(),
            sending_articulation: sending(vec![group(0, "And", &["A"])], vec![]),
            ..Articulation::default()
        };
        assert_eq!(compile(&record), Err(CompileError::MissingPayload));
    }
}

#[test]
fn sending_side_errors_pass_through_compile() {
    let record = course_record("X", sending(vec![group(0, "And", &[])], vec![]));
    assert_eq!(compile(&record), Err(CompileError::EmptyGroup));
    let record = course_record(
        "X",
        sending(vec![group(0, "And", &["A"]), group(1, "And", &["B"])], vec![span(0, 2, "And")]),
    );
    assert_eq!(compile(&record), Err(CompileError::SpanOutOfRange));
}

#[test]
fn classify_knows_three_tags() {
    assert_eq!(classify(&"Course".to_string()), ArticulationKind::Course);
    assert_eq!(classify(&"Series".to_string()), ArticulationKind::Series);
    assert_eq!(classify(&"Requirement".to_string()), ArticulationKind::Requirement);
    assert_eq!(classify(&"Elective".to_string()), ArticulationKind::Unknown);
    assert_eq!(classify(&"Courses".to_string()), ArticulationKind::Unknown);
    assert_eq!(classify(&"".to_string()), ArticulationKind::Unknown);
}

#[test]
fn conjunction_is_read_in_any_case() {
    for t in ["And", "AND", "and", "aNd"] {
        assert_eq!(Conjunction::from_text(t), Some(Conjunction::And));
    }
    for t in ["Or", "OR", "or", "oR"] {
        assert_eq!(Conjunction::from_text(t), Some(Conjunction::Or));
    }
    for t in ["", "A", "An", "Andy", " And", "Xor", "Nor", "0r", "&&", "\u{e4}nd", "or "] {
        assert_eq!(Conjunction::from_text(t), None);
    }
}

#[test]
fn separators_are_upper_case_between_spaces() {
    assert_eq!(Conjunction::And.as_separator(), " AND ");
    assert_eq!(Conjunction::Or.as_separator(), " OR ");
}

#[test]
fn titles_with_other_scripts_are_kept() {
    let g = group(0, "and", &["ESPA\u{d1}OL 1", "\u{65e5}\u{672c}\u{8a9e} 2"]);
    assert_eq!(
        render_group(&g),
        Ok("[ESPA\u{d1}OL 1 AND \u{65e5}\u{672c}\u{8a9e} 2]".to_string())
    );
}
