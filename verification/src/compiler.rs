//! The articulation expression compiler: from one articulation record to the
//! name of the receiving-side requirement and one line of text that says which
//! sending-side courses satisfy it.

use crate::order::{
    arranged, distinct_keys, indices, is_arrangement, lemma_sorted_items_of_rearranged, occurs,
    sorted_order, stable_order,
};
use crate::outcome::outcome_view;
use crate::text::{enclose, enclosed, join, join_strings, texts};
use crate::types::{Articulation, CourseGroupConjunction, Item, Item2, SendingArticulation};
use vstd::prelude::*;
use vstd::string::*;

verus! {

/// How the members of a course group, or the groups of a span, combine.
#[derive(Debug, Clone, Copy, PartialEq, Eq, Structural)]
pub enum Conjunction {
    And,
    Or,
}

/// `text` is the three letters of "and", in either case.
pub open spec fn reads_and(text: Seq<char>) -> bool {
    &&& text.len() == 3
    &&& (text[0] == 'a' || text[0] == 'A')
    &&& (text[1] == 'n' || text[1] == 'N')
    &&& (text[2] == 'd' || text[2] == 'D')
}

/// `text` is the two letters of "or", in either case.
pub open spec fn reads_or(text: Seq<char>) -> bool {
    &&& text.len() == 2
    &&& (text[0] == 'o' || text[0] == 'O')
    &&& (text[1] == 'r' || text[1] == 'R')
}

impl Conjunction {
    /// The conjunction that `text` spells, if it spells one.
    pub open spec fn parse(text: Seq<char>) -> Option<Conjunction> {
        if reads_and(text) {
            Some(Conjunction::And)
        } else if reads_or(text) {
            Some(Conjunction::Or)
        } else {
            None
        }
    }

    /// What stands between two members that this conjunction combines.
    pub open spec fn separator(self) -> Seq<char> {
        match self {
            Conjunction::And => " AND "@,
            Conjunction::Or => " OR "@,
        }
    }

    /// Reads a conjunction as the service writes it ("And", "Or"); the case of
    /// the letters does not matter.
    pub fn from_text(text: &str) -> (found: Option<Conjunction>)
        ensures
            found == Conjunction::parse(text@),
    {
        let len = text.unicode_len();
        if len == 3 {
            let a = text.get_char(0);
            let n = text.get_char(1);
            let d = text.get_char(2);
            if (a == 'a' || a == 'A') && (n == 'n' || n == 'N') && (d == 'd' || d == 'D') {
                return Some(Conjunction::And);
            }
        } else if len == 2 {
            let o = text.get_char(0);
            let r = text.get_char(1);
            if (o == 'o' || o == 'O') && (r == 'r' || r == 'R') {
                return Some(Conjunction::Or);
            }
        }
        None
    }

    /// The separator as text: `" AND "` or `" OR "`.
    pub fn as_separator(&self) -> (sep: &'static str)
        ensures
            sep@ == self.separator(),
            sep@.len() <= 5,
    {
        proof {
            reveal_strlit(" AND ");
            reveal_strlit(" OR ");
        }
        match self {
            Conjunction::And => " AND ",
            Conjunction::Or => " OR ",
        }
    }
}

/// What kind of requirement the receiving side of an articulation is.
#[derive(Debug, Clone, Copy, PartialEq, Eq, Structural)]
pub enum ArticulationKind {
    Course,
    Series,
    Requirement,
    Unknown,
}

/// The kind that a record's type tag names.
pub open spec fn kind_of(tag: Seq<char>) -> ArticulationKind {
    if tag == "Course"@ {
        ArticulationKind::Course
    } else if tag == "Series"@ {
        ArticulationKind::Series
    } else if tag == "Requirement"@ {
        ArticulationKind::Requirement
    } else {
        ArticulationKind::Unknown
    }
}

/// Tells the kind of a record by its type tag.
pub fn classify(tag: &String) -> (kind: ArticulationKind)
    ensures
        kind == kind_of(tag@),
{
    if *tag == String::from_str("Course") {
        ArticulationKind::Course
    } else if *tag == String::from_str("Series") {
        ArticulationKind::Series
    } else if *tag == String::from_str("Requirement") {
        ArticulationKind::Requirement
    } else {
        ArticulationKind::Unknown
    }
}

/// The sending side of a compiled articulation.
#[derive(Debug, Clone, PartialEq)]
pub enum Expression {
    /// There are no course groups: nothing on the sending side articulates.
    NoArticulation,
    /// The course combinations that satisfy the requirement, in one line.
    Text(String),
}

/// The model of an `Expression`.
pub enum ExpressionView {
    NoArticulation,
    Text(Seq<char>),
}

impl View for Expression {
    type V = ExpressionView;

    open spec fn view(&self) -> ExpressionView {
        match self {
            Expression::NoArticulation => ExpressionView::NoArticulation,
            Expression::Text(line) => ExpressionView::Text(line@),
        }
    }
}

/// Why a record did not compile.
#[derive(Debug, Clone, PartialEq)]
pub enum CompileError {
    /// The type tag, carried here, names none of the known kinds.
    UnknownArticulationKind(String),
    /// The payload that the type tag selects is absent.
    MissingPayload,
    /// A course group holds no course.
    EmptyGroup,
    /// A conjunction spells neither "and" nor "or".
    UnknownConjunction,
    /// A span reaches outside the course groups.
    SpanOutOfRange,
}

/// The model of a `CompileError`.
pub enum CompileErrorView {
    UnknownArticulationKind(Seq<char>),
    MissingPayload,
    EmptyGroup,
    UnknownConjunction,
    SpanOutOfRange,
}

impl View for CompileError {
    type V = CompileErrorView;

    open spec fn view(&self) -> CompileErrorView {
        match self {
            CompileError::UnknownArticulationKind(tag) => CompileErrorView::UnknownArticulationKind(
                tag@,
            ),
            CompileError::MissingPayload => CompileErrorView::MissingPayload,
            CompileError::EmptyGroup => CompileErrorView::EmptyGroup,
            CompileError::UnknownConjunction => CompileErrorView::UnknownConjunction,
            CompileError::SpanOutOfRange => CompileErrorView::SpanOutOfRange,
        }
    }
}

/// A compiled articulation.
#[derive(Debug, Clone, PartialEq)]
pub struct Compiled {
    pub receiving_name: String,
    pub expression: Expression,
}

/// The model of a `Compiled`.
pub struct CompiledView {
    pub receiving_name: Seq<char>,
    pub expression: ExpressionView,
}

impl View for Compiled {
    type V = CompiledView;

    open spec fn view(&self) -> CompiledView {
        CompiledView { receiving_name: self.receiving_name@, expression: self.expression@ }
    }
}

/// The positions of the courses of a group, in arrival order.
pub open spec fn course_positions(courses: Seq<Item2>) -> Seq<i64> {
    courses.map_values(|c: Item2| c.position)
}

/// The titles of the courses of a group, by ascending position.
pub open spec fn titles_in_order(courses: Seq<Item2>) -> Seq<Seq<char>> {
    arranged(courses.map_values(|c: Item2| c.course_title@), stable_order(course_positions(courses)))
}

/// A course group as text: its titles by ascending position, joined by the
/// conjunction, and in square brackets where there are two courses or more.
pub open spec fn group_text(courses: Seq<Item2>, conjunction: Conjunction) -> Seq<char> {
    let joined = join(titles_in_order(courses), conjunction.separator());
    if courses.len() >= 2 {
        enclosed("["@, joined, "]"@)
    } else {
        joined
    }
}

/// The group has a course and a conjunction that can be read.
pub open spec fn group_is_sound(group: Item) -> bool {
    group.items@.len() > 0 && Conjunction::parse(group.course_conjunction@) is Some
}

/// The text of a group whose conjunction can be read.
pub open spec fn rendered_group(group: Item) -> Seq<char> {
    match Conjunction::parse(group.course_conjunction@) {
        Some(conjunction) => group_text(group.items@, conjunction),
        None => Seq::empty(),
    }
}

/// The positions of the groups, in arrival order.
pub open spec fn group_positions(groups: Seq<Item>) -> Seq<i64> {
    groups.map_values(|g: Item| g.position)
}

/// The texts of the groups, by ascending position.
pub open spec fn group_texts(groups: Seq<Item>) -> Seq<Seq<char>> {
    arranged(groups.map_values(|g: Item| rendered_group(g)), stable_order(group_positions(groups)))
}

/// The span's bounds lie within `count` groups, or it covers none.
pub open spec fn span_in_range(span: CourseGroupConjunction, count: nat) -> bool {
    let begin = span.sending_course_group_begin_position;
    let end = span.sending_course_group_end_position;
    begin > end || (0 <= begin && end < count)
}

/// The texts that a span covers, out of the groups' texts in sorted order.
pub open spec fn covered(texts: Seq<Seq<char>>, span: CourseGroupConjunction) -> Seq<Seq<char>> {
    let begin = span.sending_course_group_begin_position;
    let end = span.sending_course_group_end_position;
    if begin > end {
        Seq::empty()
    } else {
        texts.subrange(begin as int, end + 1)
    }
}

/// A span as text: the texts it covers, joined by the conjunction, and in
/// parentheses where it covers two groups or more.
pub open spec fn span_text(
    texts: Seq<Seq<char>>,
    span: CourseGroupConjunction,
    conjunction: Conjunction,
) -> Seq<char> {
    let parts = covered(texts, span);
    let joined = join(parts, conjunction.separator());
    if parts.len() >= 2 {
        enclosed("("@, joined, ")"@)
    } else {
        joined
    }
}

/// The text of a span whose conjunction can be read.
pub open spec fn rendered_span(texts: Seq<Seq<char>>, span: CourseGroupConjunction) -> Seq<char> {
    match Conjunction::parse(span.group_conjunction@) {
        Some(conjunction) => span_text(texts, span, conjunction),
        None => Seq::empty(),
    }
}

/// The texts of the spans, in arrival order, over the groups' texts.
pub open spec fn span_texts(
    texts: Seq<Seq<char>>,
    spans: Seq<CourseGroupConjunction>,
) -> Seq<Seq<char>> {
    spans.map_values(|span: CourseGroupConjunction| rendered_span(texts, span))
}

/// One of the first `upto` groups holds no course.
pub open spec fn empty_group_before(groups: Seq<Item>, upto: int) -> bool {
    exists|i: int| 0 <= i < upto && (#[trigger] groups[i]).items@.len() == 0
}

/// The conjunction of one of the first `upto` groups cannot be read.
pub open spec fn unreadable_group_before(groups: Seq<Item>, upto: int) -> bool {
    exists|i: int|
        0 <= i < upto && Conjunction::parse((#[trigger] groups[i]).course_conjunction@) is None
}

/// The conjunction of one of the first `upto` spans cannot be read.
pub open spec fn unreadable_span_before(spans: Seq<CourseGroupConjunction>, upto: int) -> bool {
    exists|i: int|
        0 <= i < upto && Conjunction::parse((#[trigger] spans[i]).group_conjunction@) is None
}

/// One of the first `upto` spans reaches outside `count` groups.
pub open spec fn stray_span_before(
    spans: Seq<CourseGroupConjunction>,
    upto: int,
    count: nat,
) -> bool {
    exists|i: int| 0 <= i < upto && !span_in_range(#[trigger] spans[i], count)
}

/// The sending side as an expression.
///
/// No group at all is no articulation. Otherwise every group must hold a
/// course and a readable conjunction. A single group is the expression by
/// itself, whatever the spans hold. Two groups or more are combined by the
/// spans, in the order in which the spans arrive, with `", "` between them.
pub open spec fn expression_of(
    groups: Seq<Item>,
    spans: Seq<CourseGroupConjunction>,
) -> Result<ExpressionView, CompileErrorView> {
    if groups.len() == 0 {
        Ok(ExpressionView::NoArticulation)
    } else if empty_group_before(groups, groups.len() as int) {
        Err(CompileErrorView::EmptyGroup)
    } else if unreadable_group_before(groups, groups.len() as int) {
        Err(CompileErrorView::UnknownConjunction)
    } else if groups.len() == 1 {
        Ok(ExpressionView::Text(rendered_group(groups[0])))
    } else if unreadable_span_before(spans, spans.len() as int) {
        Err(CompileErrorView::UnknownConjunction)
    } else if stray_span_before(spans, spans.len() as int, groups.len()) {
        Err(CompileErrorView::SpanOutOfRange)
    } else {
        Ok(ExpressionView::Text(join(span_texts(group_texts(groups), spans), ", "@)))
    }
}

/// The name of the receiving-side requirement: the title of the course, the
/// name of the series or the name of the requirement, as the kind selects.
pub open spec fn receiving_name(record: Articulation) -> Option<Seq<char>> {
    match kind_of(record.type_field@) {
        ArticulationKind::Course => match record.course {
            Some(course) => Some(course.course_title@),
            None => None,
        },
        ArticulationKind::Series => match record.series {
            Some(series) => Some(series.name@),
            None => None,
        },
        ArticulationKind::Requirement => match record.requirement {
            Some(requirement) => Some(requirement.name@),
            None => None,
        },
        ArticulationKind::Unknown => None,
    }
}

/// What a record compiles to.
pub open spec fn compiled(record: Articulation) -> Result<CompiledView, CompileErrorView> {
    if kind_of(record.type_field@) == ArticulationKind::Unknown {
        Err(CompileErrorView::UnknownArticulationKind(record.type_field@))
    } else {
        match receiving_name(record) {
            None => Err(CompileErrorView::MissingPayload),
            Some(name) => match expression_of(
                record.sending_articulation.items@,
                record.sending_articulation.course_group_conjunctions@,
            ) {
                Err(error) => Err(error),
                Ok(expression) => Ok(CompiledView { receiving_name: name, expression }),
            },
        }
    }
}

/// Renders one course group.
///
/// Fails with `EmptyGroup` exactly when the group holds no course, and with
/// `UnknownConjunction` exactly when it holds one and its conjunction cannot
/// be read. The text is in square brackets exactly when the group holds two
/// courses or more.
pub fn render_group(group: &Item) -> (outcome: Result<String, CompileError>)
    ensures
        group.items@.len() == 0 ==> outcome == Err::<String, CompileError>(CompileError::EmptyGroup),
        group.items@.len() > 0 && Conjunction::parse(group.course_conjunction@) is None ==> outcome
            == Err::<String, CompileError>(CompileError::UnknownConjunction),
        group_is_sound(*group) ==> outcome is Ok && outcome->Ok_0@ == rendered_group(*group),
{
    let count = group.items.len();
    if count == 0 {
        return Err(CompileError::EmptyGroup);
    }
    let conjunction = match Conjunction::from_text(group.course_conjunction.as_str()) {
        Some(conjunction) => conjunction,
        None => {
            return Err(CompileError::UnknownConjunction);
        },
    };
    let mut keys: Vec<i64> = Vec::new();
    let mut i: usize = 0;
    while i < count
        invariant
            count == group.items@.len(),
            i <= count,
            keys@ == course_positions(group.items@).take(i as int),
        decreases count - i,
    {
        keys.push(group.items[i].position);
        i += 1;
    }
    proof {
        assert(keys@ == course_positions(group.items@));
    }
    let order = sorted_order(&keys);
    let mut titles: Vec<String> = Vec::new();
    let mut k: usize = 0;
    while k < count
        invariant
            count == group.items@.len(),
            k <= count,
            order@.len() == count,
            indices(order@) == stable_order(course_positions(group.items@)),
            forall|j: int| 0 <= j < count ==> 0 <= (#[trigger] order@[j]) < count,
            texts(titles@) == titles_in_order(group.items@).take(k as int),
        decreases count - k,
    {
        proof {
            assert(indices(order@)[k as int] == order@[k as int]);
        }
        let title = group.items[order[k]].course_title.clone();
        proof {
            assert(texts(titles@.push(title)) == texts(titles@).push(title@));
        }
        titles.push(title);
        k += 1;
    }
    proof {
        assert(texts(titles@) == titles_in_order(group.items@));
    }
    let joined = join_strings(&titles, conjunction.as_separator());
    if count >= 2 {
        Ok(enclose("[", &joined, "]"))
    } else {
        Ok(joined)
    }
}

/// Renders one span over the groups' texts, given in sorted order.
///
/// Fails with `UnknownConjunction` exactly when the span's conjunction cannot
/// be read, and with `SpanOutOfRange` exactly when it can and the span reaches
/// outside `group_lines`. The text is in parentheses exactly when the span
/// covers two groups or more.
pub fn render_span(group_lines: &Vec<String>, span: &CourseGroupConjunction) -> (outcome: Result<
    String,
    CompileError,
>)
    ensures
        Conjunction::parse(span.group_conjunction@) is None ==> outcome == Err::<
            String,
            CompileError,
        >(CompileError::UnknownConjunction),
        Conjunction::parse(span.group_conjunction@) is Some && !span_in_range(
            *span,
            group_lines@.len(),
        ) ==> outcome == Err::<String, CompileError>(CompileError::SpanOutOfRange),
        Conjunction::parse(span.group_conjunction@) is Some && span_in_range(
            *span,
            group_lines@.len(),
        ) ==> outcome is Ok && outcome->Ok_0@ == rendered_span(texts(group_lines@), *span),
{
    let conjunction = match Conjunction::from_text(span.group_conjunction.as_str()) {
        Some(conjunction) => conjunction,
        None => {
            return Err(CompileError::UnknownConjunction);
        },
    };
    let begin = span.sending_course_group_begin_position;
    let end = span.sending_course_group_end_position;
    let mut parts: Vec<String> = Vec::new();
    if begin <= end {
        if begin < 0 {
            return Err(CompileError::SpanOutOfRange);
        }
        let first = begin as u64;
        let last = end as u64;
        if last >= group_lines.len() as u64 {
            return Err(CompileError::SpanOutOfRange);
        }
        let stop: usize = last as usize + 1;
        let mut at: usize = first as usize;
        while at < stop
            invariant
                0 <= begin <= at <= stop == end + 1,
                stop <= group_lines@.len(),
                texts(parts@) == texts(group_lines@).subrange(begin as int, at as int),
            decreases stop - at,
        {
            let line = group_lines[at].clone();
            proof {
                assert(texts(parts@.push(line)) == texts(parts@).push(line@));
                assert(texts(group_lines@).subrange(begin as int, at + 1) == texts(
                    group_lines@,
                ).subrange(begin as int, at as int).push(line@));
            }
            parts.push(line);
            at += 1;
        }
    }
    proof {
        assert(texts(parts@) == covered(texts(group_lines@), *span));
    }
    let joined = join_strings(&parts, conjunction.as_separator());
    if parts.len() >= 2 {
        Ok(enclose("(", &joined, ")"))
    } else {
        Ok(joined)
    }
}

/// Renders the sending side of an articulation.
///
/// No group is `NoArticulation`, which is not the empty text. A single group
/// is rendered by itself and the spans are not looked at. Otherwise the spans
/// are rendered over the groups in sorted order and joined by `", "`.
pub fn render_expression(sending: &SendingArticulation) -> (outcome: Result<
    Expression,
    CompileError,
>)
    ensures
        outcome_view(outcome) == expression_of(
            sending.items@,
            sending.course_group_conjunctions@,
        ),
{
    let groups = &sending.items;
    let spans = &sending.course_group_conjunctions;
    let count = groups.len();
    if count == 0 {
        return Ok(Expression::NoArticulation);
    }
    let mut any_empty = false;
    let mut any_unreadable = false;
    let mut keys: Vec<i64> = Vec::new();
    let mut i: usize = 0;
    while i < count
        invariant
            count == groups@.len(),
            i <= count,
            any_empty == empty_group_before(groups@, i as int),
            any_unreadable == unreadable_group_before(groups@, i as int),
            keys@ == group_positions(groups@).take(i as int),
        decreases count - i,
    {
        if groups[i].items.len() == 0 {
            any_empty = true;
        }
        if Conjunction::from_text(groups[i].course_conjunction.as_str()).is_none() {
            any_unreadable = true;
        }
        keys.push(groups[i].position);
        i += 1;
    }
    if any_empty {
        return Err(CompileError::EmptyGroup);
    }
    if any_unreadable {
        return Err(CompileError::UnknownConjunction);
    }
    proof {
        assert(keys@ == group_positions(groups@));
        assert forall|j: int| 0 <= j < count implies group_is_sound(#[trigger] groups@[j]) by {}
    }
    if count == 1 {
        return match render_group(&groups[0]) {
            Ok(line) => Ok(Expression::Text(line)),
            Err(error) => Err(error),
        };
    }
    let span_count = spans.len();
    let mut any_unreadable_span = false;
    let mut any_stray = false;
    let mut s: usize = 0;
    while s < span_count
        invariant
            span_count == spans@.len(),
            count == groups@.len(),
            s <= span_count,
            any_unreadable_span == unreadable_span_before(spans@, s as int),
            any_stray == stray_span_before(spans@, s as int, count as nat),
        decreases span_count - s,
    {
        let span = &spans[s];
        if Conjunction::from_text(span.group_conjunction.as_str()).is_none() {
            any_unreadable_span = true;
        }
        let begin = span.sending_course_group_begin_position;
        let end = span.sending_course_group_end_position;
        if begin <= end && (begin < 0 || end as u64 >= count as u64) {
            any_stray = true;
        }
        s += 1;
    }
    if any_unreadable_span {
        return Err(CompileError::UnknownConjunction);
    }
    if any_stray {
        return Err(CompileError::SpanOutOfRange);
    }
    let order = sorted_order(&keys);
    let mut lines: Vec<String> = Vec::new();
    let mut k: usize = 0;
    while k < count
        invariant
            count == groups@.len(),
            k <= count,
            order@.len() == count,
            indices(order@) == stable_order(group_positions(groups@)),
            forall|j: int| 0 <= j < count ==> (#[trigger] order@[j]) < count,
            forall|j: int| 0 <= j < count ==> group_is_sound(#[trigger] groups@[j]),
            texts(lines@) == group_texts(groups@).take(k as int),
        decreases count - k,
    {
        proof {
            assert(indices(order@)[k as int] == order@[k as int]);
        }
        match render_group(&groups[order[k]]) {
            Ok(line) => {
                proof {
                    assert(texts(lines@.push(line)) == texts(lines@).push(line@));
                }
                lines.push(line);
            },
            Err(error) => {
                return Err(error);
            },
        }
        k += 1;
    }
    proof {
        assert(texts(lines@) == group_texts(groups@));
    }
    let mut pieces: Vec<String> = Vec::new();
    let mut s: usize = 0;
    while s < span_count
        invariant
            span_count == spans@.len(),
            s <= span_count,
            lines@.len() == groups@.len(),
            texts(lines@) == group_texts(groups@),
            !unreadable_span_before(spans@, span_count as int),
            !stray_span_before(spans@, span_count as int, groups@.len()),
            texts(pieces@) == span_texts(group_texts(groups@), spans@).take(s as int),
        decreases span_count - s,
    {
        proof {
            let span = spans@[s as int];
            assert(Conjunction::parse(span.group_conjunction@) is Some);
            assert(span_in_range(span, groups@.len()));
        }
        match render_span(&lines, &spans[s]) {
            Ok(piece) => {
                proof {
                    assert(texts(pieces@.push(piece)) == texts(pieces@).push(piece@));
                }
                pieces.push(piece);
            },
            Err(error) => {
                return Err(error);
            },
        }
        s += 1;
    }
    proof {
        assert(texts(pieces@) == span_texts(group_texts(groups@), spans@));
        reveal_strlit(", ");
    }
    Ok(Expression::Text(join_strings(&pieces, ", ")))
}

/// Compiles one articulation record.
///
/// Fails with `UnknownArticulationKind`, carrying the tag, exactly when the
/// type tag is none of "Course", "Series" and "Requirement". Otherwise the
/// receiving name is the course's title, the series' name or the
/// requirement's name, and the expression is that of the sending side.
pub fn compile(record: &Articulation) -> (outcome: Result<Compiled, CompileError>)
    ensures
        outcome_view(outcome) == compiled(*record),
{
    let receiving_name = match classify(&record.type_field) {
        ArticulationKind::Unknown => {
            return Err(CompileError::UnknownArticulationKind(record.type_field.clone()));
        },
        ArticulationKind::Course => match &record.course {
            Some(course) => course.course_title.clone(),
            None => {
                return Err(CompileError::MissingPayload);
            },
        },
        ArticulationKind::Series => match &record.series {
            Some(series) => series.name.clone(),
            None => {
                return Err(CompileError::MissingPayload);
            },
        },
        ArticulationKind::Requirement => match &record.requirement {
            Some(requirement) => requirement.name.clone(),
            None => {
                return Err(CompileError::MissingPayload);
            },
        },
    };
    match render_expression(&record.sending_articulation) {
        Ok(expression) => Ok(Compiled { receiving_name, expression }),
        Err(error) => Err(error),
    }
}

/// Compiling is repeatable: two outcomes of compiling one record hold the
/// same receiving name and the same expression, or the same error.
pub proof fn lemma_compile_is_repeatable(
    record: Articulation,
    first: Result<Compiled, CompileError>,
    second: Result<Compiled, CompileError>,
)
    requires
        outcome_view(first) == compiled(record),
        outcome_view(second) == compiled(record),
    ensures
        outcome_view(first) == outcome_view(second),
        first is Ok <==> second is Ok,
        first is Ok ==> first->Ok_0.receiving_name@ == second->Ok_0.receiving_name@
            && first->Ok_0.expression@ == second->Ok_0.expression@,
        first is Err ==> first->Err_0@ == second->Err_0@,
{
}

/// The expression does not depend on the order in which the course groups
/// arrive, where no two groups have the same position: rearranging the groups
/// by `p` leaves it as it was.
pub proof fn lemma_expression_ignores_group_order(
    groups: Seq<Item>,
    spans: Seq<CourseGroupConjunction>,
    p: Seq<int>,
)
    requires
        is_arrangement(p, groups.len()),
        distinct_keys(group_positions(groups)),
    ensures
        expression_of(arranged(groups, p), spans) == expression_of(groups, spans),
{
    let moved = arranged(groups, p);
    let count = groups.len() as int;
    assert(moved.len() == groups.len());
    assert forall|i: int| 0 <= i < count implies #[trigger] moved[i] == groups[p[i]] && 0 <= p[i]
        < count by {}
    if empty_group_before(moved, count) {
        let i = choose|i: int| 0 <= i < count && (#[trigger] moved[i]).items@.len() == 0;
        assert(groups[p[i]].items@.len() == 0);
    }
    if empty_group_before(groups, count) {
        let j = choose|j: int| 0 <= j < count && (#[trigger] groups[j]).items@.len() == 0;
        assert(occurs(p, j));
        let i = choose|i: int| 0 <= i < p.len() && #[trigger] p[i] == j;
        assert(moved[i].items@.len() == 0);
    }
    if unreadable_group_before(moved, count) {
        let i = choose|i: int|
            0 <= i < count && Conjunction::parse((#[trigger] moved[i]).course_conjunction@) is None;
        assert(Conjunction::parse(groups[p[i]].course_conjunction@) is None);
    }
    if unreadable_group_before(groups, count) {
        let j = choose|j: int|
            0 <= j < count && Conjunction::parse((#[trigger] groups[j]).course_conjunction@) is None;
        assert(occurs(p, j));
        let i = choose|i: int| 0 <= i < p.len() && #[trigger] p[i] == j;
        assert(Conjunction::parse(moved[i].course_conjunction@) is None);
    }
    if count == 1 {
        assert(moved[0] == groups[p[0]]);
    }
    let lines = groups.map_values(|g: Item| rendered_group(g));
    let keys = group_positions(groups);
    assert(group_positions(moved) =~= arranged(keys, p));
    assert(moved.map_values(|g: Item| rendered_group(g)) =~= arranged(lines, p));
    lemma_sorted_items_of_rearranged(lines, keys, p);
    assert(group_texts(moved) == group_texts(groups));
}

/// A group's text does not depend on the order in which its courses arrive,
/// where no two courses have the same position: rearranging the courses by
/// `p` leaves it as it was.
pub proof fn lemma_group_text_ignores_course_order(
    courses: Seq<Item2>,
    conjunction: Conjunction,
    p: Seq<int>,
)
    requires
        is_arrangement(p, courses.len()),
        distinct_keys(course_positions(courses)),
    ensures
        group_text(arranged(courses, p), conjunction) == group_text(courses, conjunction),
{
    let moved = arranged(courses, p);
    let titles = courses.map_values(|c: Item2| c.course_title@);
    let keys = course_positions(courses);
    assert forall|i: int| 0 <= i < courses.len() implies #[trigger] moved[i] == courses[p[i]] && 0
        <= p[i] < courses.len() by {}
    assert(course_positions(moved) =~= arranged(keys, p));
    assert(moved.map_values(|c: Item2| c.course_title@) =~= arranged(titles, p));
    lemma_sorted_items_of_rearranged(titles, keys, p);
    assert(titles_in_order(moved) == titles_in_order(courses));
}

/// Compiling does not depend on the order in which the course groups arrive,
/// where no two groups have the same position: a record whose groups are
/// those of another, rearranged by `p`, compiles to the same outcome.
pub proof fn lemma_compile_ignores_group_order(first: Articulation, second: Articulation, p: Seq<int>)
    requires
        second.type_field@ == first.type_field@,
        second.course == first.course,
        second.series == first.series,
        second.requirement == first.requirement,
        second.sending_articulation.course_group_conjunctions@
            == first.sending_articulation.course_group_conjunctions@,
        is_arrangement(p, first.sending_articulation.items@.len()),
        distinct_keys(group_positions(first.sending_articulation.items@)),
        second.sending_articulation.items@ == arranged(first.sending_articulation.items@, p),
    ensures
        compiled(second) == compiled(first),
{
    lemma_expression_ignores_group_order(
        first.sending_articulation.items@,
        first.sending_articulation.course_group_conjunctions@,
        p,
    );
}

/// A record with exactly one course group never consults its spans: whatever
/// the spans hold, the expression is that of the group alone.
pub proof fn lemma_single_group_ignores_spans(
    groups: Seq<Item>,
    spans: Seq<CourseGroupConjunction>,
    others: Seq<CourseGroupConjunction>,
)
    requires
        groups.len() == 1,
    ensures
        expression_of(groups, spans) == expression_of(groups, others),
        group_is_sound(groups[0]) ==> expression_of(groups, spans) == Ok::<
            ExpressionView,
            CompileErrorView,
        >(ExpressionView::Text(rendered_group(groups[0]))),
        !group_is_sound(groups[0]) ==> expression_of(groups, spans) is Err,
{
    if empty_group_before(groups, 1) {
        let i = choose|i: int| 0 <= i < 1 && (#[trigger] groups[i]).items@.len() == 0;
        assert(i == 0);
    }
    if unreadable_group_before(groups, 1) {
        let i = choose|i: int|
            0 <= i < 1 && Conjunction::parse((#[trigger] groups[i]).course_conjunction@) is None;
        assert(i == 0);
    }
    if groups[0].items@.len() == 0 {
        assert(empty_group_before(groups, 1));
    }
    if Conjunction::parse(groups[0].course_conjunction@) is None {
        assert(unreadable_group_before(groups, 1));
    }
}

/// The bracketing rule: a group's text is its joined titles in square
/// brackets if and only if the group holds two courses or more, and a span's
/// text is its joined group texts in parentheses if and only if the span
/// covers two groups or more. Otherwise either is the joined text itself.
pub proof fn lemma_bracketing_rule(
    courses: Seq<Item2>,
    texts: Seq<Seq<char>>,
    span: CourseGroupConjunction,
    conjunction: Conjunction,
)
    ensures
        courses.len() >= 2 <==> group_text(courses, conjunction) == enclosed(
            "["@,
            join(titles_in_order(courses), conjunction.separator()),
            "]"@,
        ),
        courses.len() < 2 <==> group_text(courses, conjunction) == join(
            titles_in_order(courses),
            conjunction.separator(),
        ),
        covered(texts, span).len() >= 2 <==> span_text(texts, span, conjunction) == enclosed(
            "("@,
            join(covered(texts, span), conjunction.separator()),
            ")"@,
        ),
        covered(texts, span).len() < 2 <==> span_text(texts, span, conjunction) == join(
            covered(texts, span),
            conjunction.separator(),
        ),
{
    reveal_strlit("[");
    reveal_strlit("]");
    reveal_strlit("(");
    reveal_strlit(")");
    let titles = join(titles_in_order(courses), conjunction.separator());
    assert(enclosed("["@, titles, "]"@).len() == titles.len() + 2);
    let lines = join(covered(texts, span), conjunction.separator());
    assert(enclosed("("@, lines, ")"@).len() == lines.len() + 2);
}

/// An expression as it is shown: its text, or a mark where nothing
/// articulates.
pub open spec fn line_of(expression: ExpressionView) -> Seq<char> {
    match expression {
        ExpressionView::NoArticulation => "No articulation"@,
        ExpressionView::Text(line) => line,
    }
}

/// What is reported for a record that did not compile.
pub open spec fn message_of(error: CompileErrorView) -> Seq<char> {
    match error {
        CompileErrorView::UnknownArticulationKind(tag) => "Unhandled articulation type \""@ + tag
            + "\""@,
        CompileErrorView::MissingPayload => "Articulation without the payload of its type"@,
        CompileErrorView::EmptyGroup => "Course group without courses"@,
        CompileErrorView::UnknownConjunction => "Conjunction that is neither \"And\" nor \"Or\""@,
        CompileErrorView::SpanOutOfRange => "Course group range outside the course groups"@,
    }
}

impl Expression {
    /// The expression as it is shown.
    pub fn line(&self) -> (line: String)
        ensures
            line@ == line_of(self@),
    {
        match self {
            Expression::NoArticulation => String::from_str("No articulation"),
            Expression::Text(line) => line.clone(),
        }
    }
}

impl CompileError {
    /// The report of this error, to be shown as a warning.
    pub fn message(&self) -> (message: String)
        ensures
            message@ == message_of(self@),
    {
        match self {
            CompileError::UnknownArticulationKind(tag) => {
                let mut message = String::from_str("Unhandled articulation type \"");
                message.append(tag.as_str());
                message.append("\"");
                message
            },
            CompileError::MissingPayload => String::from_str(
                "Articulation without the payload of its type",
            ),
            CompileError::EmptyGroup => String::from_str("Course group without courses"),
            CompileError::UnknownConjunction => String::from_str(
                "Conjunction that is neither \"And\" nor \"Or\"",
            ),
            CompileError::SpanOutOfRange => String::from_str(
                "Course group range outside the course groups",
            ),
        }
    }
}

} // verus!
