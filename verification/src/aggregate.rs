//! Gathering rows under names: an ordered multimap from a name to the rows
//! that were seen under it, each row once, names and rows in the order in
//! which they were first seen.

use crate::compiler::{
    compile, compiled, kind_of, line_of, message_of, ArticulationKind, CompileError,
    CompileErrorView, Compiled, CompiledView,
};
use crate::outcome::outcome_view;
use crate::text::texts;
use crate::types::{Agreement, Articulation, Report};
use vstd::prelude::*;
use vstd::string::*;
use vstd::utf8::encode_utf8;

verus! {

/// What can be a row: two rows can be told apart or found to be the same.
pub trait Row: View + Sized {
    /// Whether `other` is the same row.
    fn same(&self, other: &Self) -> (same: bool)
        ensures
            same == (self@ == other@),
    ;
}

/// The model of a table: the names in first-seen order, and the rows of each
/// name in first-seen order.
pub struct TableView<R> {
    pub keys: Seq<Seq<char>>,
    pub rows: Map<Seq<char>, Seq<R>>,
}

/// A table names each of its keys once, holds rows for its keys and for
/// nothing else, and under each key at least one row and no row twice.
pub open spec fn is_table<R>(table: TableView<R>) -> bool {
    &&& table.keys.no_duplicates()
    &&& forall|key: Seq<char>| table.rows.contains_key(key) <==> table.keys.contains(key)
    &&& forall|key: Seq<char>| #[trigger]
        table.rows.contains_key(key) ==> table.rows[key].len() > 0
            && table.rows[key].no_duplicates()
}

/// The table without keys.
pub open spec fn empty_table<R>() -> TableView<R> {
    TableView { keys: Seq::empty(), rows: Map::empty() }
}

/// The table holds `row` under `key`.
pub open spec fn holds<R>(table: TableView<R>, key: Seq<char>, row: R) -> bool {
    table.rows.contains_key(key) && table.rows[key].contains(row)
}

/// The table after `row` was reported under `key`: a new key goes behind the
/// keys, a new row behind the rows of its key, and a row that its key already
/// holds changes nothing.
pub open spec fn inserted<R>(table: TableView<R>, key: Seq<char>, row: R) -> TableView<R> {
    if !table.rows.contains_key(key) {
        TableView { keys: table.keys.push(key), rows: table.rows.insert(key, seq![row]) }
    } else if table.rows[key].contains(row) {
        table
    } else {
        TableView { keys: table.keys, rows: table.rows.insert(key, table.rows[key].push(row)) }
    }
}

/// The models of a list of rows.
pub open spec fn row_views<V: View>(rows: Seq<V>) -> Seq<V::V> {
    rows.map_values(|row: V| row@)
}

/// A key and the rows seen under it.
struct Bucket<V> {
    key: String,
    rows: Vec<V>,
}

/// The keys of a list of buckets.
spec fn bucket_keys<V>(buckets: Seq<Bucket<V>>) -> Seq<Seq<char>> {
    buckets.map_values(|bucket: Bucket<V>| bucket.key@)
}

/// Every bucket has a key of its own, a row, and no row twice.
spec fn buckets_are_sound<V: View>(buckets: Seq<Bucket<V>>) -> bool {
    &&& bucket_keys(buckets).no_duplicates()
    &&& forall|i: int|
        0 <= i < buckets.len() ==> (#[trigger] buckets[i]).rows@.len() > 0 && row_views(
            buckets[i].rows@,
        ).no_duplicates()
}

/// The table that a list of buckets stands for.
spec fn table_of<V: View>(buckets: Seq<Bucket<V>>) -> TableView<V::V> {
    TableView {
        keys: bucket_keys(buckets),
        rows: Map::new(
            |key: Seq<char>| bucket_keys(buckets).contains(key),
            |key: Seq<char>| row_views(buckets[bucket_keys(buckets).index_of(key)].rows@),
        ),
    }
}

/// Sound buckets stand for a table, bucket by bucket.
proof fn lemma_table_of<V: View>(buckets: Seq<Bucket<V>>)
    requires
        buckets_are_sound(buckets),
    ensures
        is_table(table_of(buckets)),
        table_of(buckets).keys.len() == buckets.len(),
        forall|i: int|
            0 <= i < buckets.len() ==> table_of(buckets).rows.contains_key(
                #[trigger] table_of(buckets).keys[i],
            ) && table_of(buckets).rows[table_of(buckets).keys[i]] == row_views(buckets[i].rows@)
                && table_of(buckets).keys[i] == buckets[i].key@,
        forall|key: Seq<char>|
            table_of(buckets).rows.contains_key(key) <==> bucket_keys(buckets).contains(key),
{
    let keys = bucket_keys(buckets);
    let table = table_of(buckets);
    assert forall|i: int| 0 <= i < keys.len() implies table.rows.contains_key(#[trigger] keys[i])
        && table.rows[keys[i]] == row_views(buckets[i].rows@) by {
        assert(keys.contains(keys[i]));
        let at = keys.index_of(keys[i]);
        assert(keys[at] == keys[i]);
        assert(at == i);
    }
    assert forall|key: Seq<char>| #[trigger] table.rows.contains_key(key) implies table.rows[key].len()
        > 0 && table.rows[key].no_duplicates() by {
        let at = keys.index_of(key);
        assert(keys[at] == key);
        assert(table.rows[key] == row_views(buckets[at].rows@));
    }
}

/// A new key behind sound buckets, with one row, is `inserted` on the table.
proof fn lemma_new_bucket<V: View>(before: Seq<Bucket<V>>, after: Seq<Bucket<V>>, row: V)
    requires
        buckets_are_sound(before),
        after.len() == before.len() + 1,
        forall|i: int| 0 <= i < before.len() ==> after[i] == before[i],
        !bucket_keys(before).contains(after.last().key@),
        after.last().rows@ == seq![row],
    ensures
        buckets_are_sound(after),
        table_of(after) == inserted(table_of(before), after.last().key@, row@),
        table_of(after) != table_of(before),
{
    let key = after.last().key@;
    let old_keys = bucket_keys(before);
    let keys = bucket_keys(after);
    assert(keys =~= old_keys.push(key));
    assert(row_views(after.last().rows@) =~= seq![row@]);
    assert forall|i: int, j: int|
        0 <= i < keys.len() && 0 <= j < keys.len() && i != j implies keys[i] != keys[j] by {
        if i < old_keys.len() {
            assert(old_keys.contains(old_keys[i]));
        }
        if j < old_keys.len() {
            assert(old_keys.contains(old_keys[j]));
        }
    }
    assert(buckets_are_sound(after));
    lemma_table_of(before);
    lemma_table_of(after);
    let want = inserted(table_of(before), key, row@);
    let have = table_of(after);
    assert forall|k: Seq<char>| have.rows.contains_key(k) implies want.rows.contains_key(k)
        && have.rows[k] == want.rows[k] by {
        let at = keys.index_of(k);
        assert(keys[at] == k);
        assert(have.rows[have.keys[at]] == row_views(after[at].rows@));
        if at < before.len() {
            assert(old_keys[at] == k);
            assert(old_keys.contains(k));
            assert(table_of(before).rows[table_of(before).keys[at]] == row_views(
                before[at].rows@,
            ));
        }
    }
    assert forall|k: Seq<char>| want.rows.contains_key(k) implies have.rows.contains_key(k) by {
        if k != key {
            assert(old_keys.contains(k));
            let at = old_keys.index_of(k);
            assert(keys[at] == k);
        } else {
            assert(keys[keys.len() - 1] == k);
        }
    }
    assert(have.rows =~= want.rows);
    assert(have.keys.len() != table_of(before).keys.len());
}

/// A new row behind the rows of one bucket is `inserted` on the table.
proof fn lemma_new_row<V: View>(before: Seq<Bucket<V>>, after: Seq<Bucket<V>>, at: int, row: V)
    requires
        buckets_are_sound(before),
        0 <= at < before.len(),
        after.len() == before.len(),
        forall|i: int| 0 <= i < before.len() && i != at ==> after[i] == before[i],
        after[at].key@ == before[at].key@,
        after[at].rows@ == before[at].rows@.push(row),
        !row_views(before[at].rows@).contains(row@),
    ensures
        buckets_are_sound(after),
        table_of(after) == inserted(table_of(before), before[at].key@, row@),
        table_of(after) != table_of(before),
{
    let key = before[at].key@;
    let keys = bucket_keys(after);
    let held = row_views(before[at].rows@);
    assert(keys =~= bucket_keys(before));
    assert(row_views(after[at].rows@) =~= held.push(row@));
    let grown = held.push(row@);
    assert forall|i: int, k: int|
        0 <= i < grown.len() && 0 <= k < grown.len() && i != k implies grown[i] != grown[k] by {
        if i < held.len() && k < held.len() {
            assert(held[i] != held[k]);
        } else if i < held.len() {
            assert(held.contains(held[i]));
        } else {
            assert(held.contains(held[k]));
        }
    }
    assert forall|i: int| 0 <= i < after.len() implies (#[trigger] after[i]).rows@.len() > 0
        && row_views(after[i].rows@).no_duplicates() by {
        if i != at {
            assert(after[i] == before[i]);
        }
    }
    assert(buckets_are_sound(after));
    lemma_table_of(before);
    lemma_table_of(after);
    let want = inserted(table_of(before), key, row@);
    let have = table_of(after);
    assert(table_of(before).keys[at] == key);
    assert(table_of(before).rows[key] == held);
    assert forall|k: Seq<char>| have.rows.contains_key(k) implies want.rows.contains_key(k)
        && have.rows[k] == want.rows[k] by {
        let i = keys.index_of(k);
        assert(keys[i] == k);
        assert(have.rows[have.keys[i]] == row_views(after[i].rows@));
        assert(table_of(before).rows[table_of(before).keys[i]] == row_views(before[i].rows@));
        if i != at {
            assert(after[i] == before[i]);
        }
    }
    assert(have.rows =~= want.rows);
    assert(have.keys[at] == key);
    assert(have.rows[key].len() != table_of(before).rows[key].len());
}

/// An ordered multimap from names to rows.
pub struct OrderedMultimap<V: Row> {
    buckets: Vec<Bucket<V>>,
}

impl<V: Row> View for OrderedMultimap<V> {
    type V = TableView<V::V>;

    closed spec fn view(&self) -> TableView<V::V> {
        table_of(self.buckets@)
    }
}

impl<V: Row> OrderedMultimap<V> {
    #[verifier::type_invariant]
    spec fn well_formed(&self) -> bool {
        buckets_are_sound(self.buckets@)
    }

    /// The multimap without keys.
    pub fn new() -> (table: Self)
        ensures
            table@ == empty_table::<V::V>(),
            is_table(table@),
    {
        let table = OrderedMultimap { buckets: Vec::new() };
        proof {
            lemma_table_of(table.buckets@);
            assert(table@.keys =~= Seq::<Seq<char>>::empty());
            assert(table@.rows =~= Map::<Seq<char>, Seq<V::V>>::empty());
        }
        table
    }

    /// The number of keys.
    pub fn len(&self) -> (count: usize)
        ensures
            count == self@.keys.len(),
            is_table(self@),
    {
        proof {
            use_type_invariant(self);
            lemma_table_of(self.buckets@);
        }
        self.buckets.len()
    }

    /// Where `key` stands among the keys, if it is one of them.
    pub fn find(&self, key: &String) -> (found: Option<usize>)
        ensures
            found is Some <==> self@.rows.contains_key(key@),
            found is Some ==> found->Some_0 < self@.keys.len() && self@.keys[found->Some_0 as int]
                == key@,
    {
        proof {
            use_type_invariant(self);
            lemma_table_of(self.buckets@);
        }
        find_bucket(&self.buckets, key)
    }

    /// The key at place `at`, counted in first-seen order.
    pub fn key_at(&self, at: usize) -> (key: &String)
        requires
            at < self@.keys.len(),
        ensures
            key@ == self@.keys[at as int],
    {
        proof {
            use_type_invariant(self);
            lemma_table_of(self.buckets@);
        }
        &self.buckets[at].key
    }

    /// The rows of the key at place `at`, in first-seen order.
    pub fn rows_at(&self, at: usize) -> (rows: &Vec<V>)
        requires
            at < self@.keys.len(),
        ensures
            row_views(rows@) == self@.rows[self@.keys[at as int]],
    {
        proof {
            use_type_invariant(self);
            lemma_table_of(self.buckets@);
        }
        &self.buckets[at].rows
    }

    /// The rows of `key`, in first-seen order, if it is one of the keys.
    pub fn rows_of(&self, key: &String) -> (rows: Option<&Vec<V>>)
        ensures
            rows is Some <==> self@.rows.contains_key(key@),
            rows is Some ==> row_views(rows->Some_0@) == self@.rows[key@],
    {
        match self.find(key) {
            Some(at) => Some(self.rows_at(at)),
            None => None,
        }
    }

    /// Reports `row` under `key`, and says whether the table changed: a row
    /// that its key already holds is not taken again.
    pub fn insert_unique(&mut self, key: &String, row: V) -> (added: bool)
        ensures
            final(self)@ == inserted(old(self)@, key@, row@),
            added <==> !holds(old(self)@, key@, row@),
            added <==> final(self)@ != old(self)@,
            holds(final(self)@, key@, row@),
            is_table(final(self)@),
    {
        proof {
            use_type_invariant(&*self);
            lemma_table_of(self.buckets@);
        }
        let mut buckets: Vec<Bucket<V>> = Vec::new();
        std::mem::swap(&mut buckets, &mut self.buckets);
        let ghost before = buckets@;
        let added = match find_bucket(&buckets, key) {
            None => {
                let mut rows: Vec<V> = Vec::new();
                rows.push(row);
                buckets.push(Bucket { key: key.clone(), rows });
                proof {
                    lemma_new_bucket(before, buckets@, row);
                }
                true
            },
            Some(at) => {
                if holds_row(&buckets[at].rows, &row) {
                    proof {
                        assert(table_of(before).keys[at as int] == key@);
                        assert(table_of(before).rows[key@] == row_views(before[at as int].rows@));
                    }
                    false
                } else {
                    let mut bucket = buckets.remove(at);
                    bucket.rows.push(row);
                    buckets.insert(at, bucket);
                    proof {
                        lemma_new_row(before, buckets@, at as int, row);
                    }
                    true
                }
            },
        };
        proof {
            lemma_table_of(buckets@);
            lemma_inserted_is_held(table_of(before), key@, row@);
        }
        self.buckets = buckets;
        added
    }
}

/// Finds the bucket of `key`.
fn find_bucket<V>(buckets: &Vec<Bucket<V>>, key: &String) -> (found: Option<usize>)
    ensures
        found is Some <==> bucket_keys(buckets@).contains(key@),
        found is Some ==> found->Some_0 < buckets@.len() && buckets@[found->Some_0 as int].key@
            == key@,
{
    let mut i: usize = 0;
    while i < buckets.len()
        invariant
            i <= buckets@.len(),
            forall|j: int| 0 <= j < i ==> (#[trigger] bucket_keys(buckets@)[j]) != key@,
        decreases buckets@.len() - i,
    {
        if buckets[i].key == *key {
            proof {
                assert(bucket_keys(buckets@)[i as int] == key@);
            }
            return Some(i);
        }
        i += 1;
    }
    None
}

/// Whether `rows` holds `row`.
fn holds_row<V: Row>(rows: &Vec<V>, row: &V) -> (held: bool)
    ensures
        held == row_views(rows@).contains(row@),
{
    let mut j: usize = 0;
    while j < rows.len()
        invariant
            j <= rows@.len(),
            forall|k: int| 0 <= k < j ==> (#[trigger] row_views(rows@)[k]) != row@,
        decreases rows@.len() - j,
    {
        if rows[j].same(row) {
            proof {
                assert(row_views(rows@)[j as int] == row@);
            }
            return true;
        }
        j += 1;
    }
    false
}

/// A major as one sending institution offers it: the institution, and the
/// key of the major's articulations there.
#[derive(Debug, Clone, PartialEq)]
pub struct Offer {
    pub institution_id: i64,
    pub institution_name: String,
    pub key: String,
}

/// The model of an `Offer`.
pub struct OfferView {
    pub institution_id: i64,
    pub institution_name: Seq<char>,
    pub key: Seq<char>,
}

impl View for Offer {
    type V = OfferView;

    open spec fn view(&self) -> OfferView {
        OfferView {
            institution_id: self.institution_id,
            institution_name: self.institution_name@,
            key: self.key@,
        }
    }
}

impl Row for Offer {
    fn same(&self, other: &Self) -> (same: bool) {
        self.institution_id == other.institution_id && self.institution_name
            == other.institution_name && self.key == other.key
    }
}

/// What one sending institution offers for a receiving course: the
/// institution's name and the expression, as it is shown.
#[derive(Debug, Clone, PartialEq)]
pub struct Equivalence {
    pub institution: String,
    pub expression: String,
}

/// The model of an `Equivalence`.
pub struct EquivalenceView {
    pub institution: Seq<char>,
    pub expression: Seq<char>,
}

impl View for Equivalence {
    type V = EquivalenceView;

    open spec fn view(&self) -> EquivalenceView {
        EquivalenceView { institution: self.institution@, expression: self.expression@ }
    }
}

impl Row for Equivalence {
    fn same(&self, other: &Self) -> (same: bool) {
        self.institution == other.institution && self.expression == other.expression
    }
}

/// The row that a compiled articulation of `institution` adds.
pub open spec fn equivalence_of(institution: Seq<char>, compiled: CompiledView) -> EquivalenceView {
    EquivalenceView { institution, expression: line_of(compiled.expression) }
}

/// The table after the outcome of compiling one articulation of
/// `institution` was reported: a compiled articulation adds its row under the
/// receiving name, and one that did not compile adds nothing.
pub open spec fn with_outcome(
    table: TableView<EquivalenceView>,
    institution: Seq<char>,
    outcome: Result<CompiledView, CompileErrorView>,
) -> TableView<EquivalenceView> {
    match outcome {
        Ok(compiled) => inserted(table, compiled.receiving_name, equivalence_of(institution, compiled)),
        Err(_) => table,
    }
}

/// Reports the outcome of compiling one articulation of `institution` to the
/// table. A record that did not compile leaves the table as it is, and its
/// report is handed back to be shown as a warning.
pub fn record_outcome(
    table: &mut OrderedMultimap<Equivalence>,
    institution: &String,
    outcome: &Result<Compiled, CompileError>,
) -> (warning: Option<String>)
    ensures
        final(table)@ == with_outcome(old(table)@, institution@, outcome_view(*outcome)),
        outcome is Ok <==> warning is None,
        outcome is Err ==> final(table)@ == old(table)@ && warning->Some_0@ == message_of(
            outcome->Err_0@,
        ),
{
    match outcome {
        Ok(compiled) => {
            let row = Equivalence {
                institution: institution.clone(),
                expression: compiled.expression.line(),
            };
            table.insert_unique(&compiled.receiving_name, row);
            None
        },
        Err(error) => Some(error.message()),
    }
}

/// The table after each of `records`, articulations of `institution`, was
/// compiled and reported in turn.
pub open spec fn with_records(
    table: TableView<EquivalenceView>,
    institution: Seq<char>,
    records: Seq<Articulation>,
) -> TableView<EquivalenceView>
    decreases records.len(),
{
    if records.len() == 0 {
        table
    } else {
        with_outcome(
            with_records(table, institution, records.drop_last()),
            institution,
            compiled(records.last()),
        )
    }
}

/// The warnings for those of `records` that do not compile, in order.
pub open spec fn warnings_of(records: Seq<Articulation>) -> Seq<Seq<char>>
    decreases records.len(),
{
    if records.len() == 0 {
        Seq::empty()
    } else {
        match compiled(records.last()) {
            Ok(_) => warnings_of(records.drop_last()),
            Err(error) => warnings_of(records.drop_last()).push(message_of(error)),
        }
    }
}

/// Compiles the articulations of one sending institution and reports each to
/// the table. Hands back the warnings for the records that did not compile;
/// those records add nothing to the table.
pub fn record_articulations(
    table: &mut OrderedMultimap<Equivalence>,
    institution: &String,
    records: &Vec<Articulation>,
) -> (warnings: Vec<String>)
    ensures
        final(table)@ == with_records(old(table)@, institution@, records@),
        texts(warnings@) == warnings_of(records@),
{
    let mut warnings: Vec<String> = Vec::new();
    let ghost start = table@;
    let mut i: usize = 0;
    while i < records.len()
        invariant
            i <= records@.len(),
            table@ == with_records(start, institution@, records@.take(i as int)),
            texts(warnings@) == warnings_of(records@.take(i as int)),
        decreases records@.len() - i,
    {
        let outcome = compile(&records[i]);
        proof {
            assert(records@.take(i + 1).drop_last() == records@.take(i as int));
            assert(records@.take(i + 1).last() == records@[i as int]);
        }
        match record_outcome(table, institution, &outcome) {
            Some(warning) => {
                proof {
                    assert(texts(warnings@.push(warning)) == texts(warnings@).push(warning@));
                }
                warnings.push(warning);
            },
            None => {},
        }
        i += 1;
    }
    proof {
        assert(records@.take(i as int) == records@);
    }
    warnings
}

/// What one agreement offers for the major of one report.
pub open spec fn offer_of(agreement: Agreement, report: Report) -> OfferView {
    OfferView {
        institution_id: agreement.institution_parent_id,
        institution_name: agreement.institution_name@,
        key: report.key@,
    }
}

/// The table of majors after each of `reports`, the majors of `agreement`,
/// was reported in turn under its label.
pub open spec fn with_majors(
    table: TableView<OfferView>,
    agreement: Agreement,
    reports: Seq<Report>,
) -> TableView<OfferView>
    decreases reports.len(),
{
    if reports.len() == 0 {
        table
    } else {
        inserted(
            with_majors(table, agreement, reports.drop_last()),
            reports.last().label@,
            offer_of(agreement, reports.last()),
        )
    }
}

/// Reports the majors that an agreement publishes to the table of majors,
/// each under its label.
pub fn record_majors(
    table: &mut OrderedMultimap<Offer>,
    agreement: &Agreement,
    reports: &Vec<Report>,
)
    ensures
        final(table)@ == with_majors(old(table)@, *agreement, reports@),
{
    let ghost start = table@;
    let mut i: usize = 0;
    while i < reports.len()
        invariant
            i <= reports@.len(),
            table@ == with_majors(start, *agreement, reports@.take(i as int)),
        decreases reports@.len() - i,
    {
        let report = &reports[i];
        let offer = Offer {
            institution_id: agreement.institution_parent_id,
            institution_name: agreement.institution_name.clone(),
            key: report.key.clone(),
        };
        proof {
            assert(reports@.take(i + 1).drop_last() == reports@.take(i as int));
            assert(reports@.take(i + 1).last() == reports@[i as int]);
        }
        table.insert_unique(&report.label, offer);
        i += 1;
    }
    proof {
        assert(reports@.take(i as int) == reports@);
    }
}

/// Reporting a row keeps a table a table: every key once, and under each key
/// no row twice.
pub proof fn lemma_insert_keeps_table<R>(table: TableView<R>, key: Seq<char>, row: R)
    requires
        is_table(table),
    ensures
        is_table(inserted(table, key, row)),
{
    let after = inserted(table, key, row);
    if !table.rows.contains_key(key) {
        assert(!table.keys.contains(key));
        assert forall|i: int, j: int|
            0 <= i < after.keys.len() && 0 <= j < after.keys.len() && i != j implies after.keys[i]
            != after.keys[j] by {
            if i < table.keys.len() {
                assert(table.keys.contains(table.keys[i]));
            }
            if j < table.keys.len() {
                assert(table.keys.contains(table.keys[j]));
            }
        }
        assert forall|k: Seq<char>| after.rows.contains_key(k) <==> after.keys.contains(k) by {
            if after.keys.contains(k) {
                let i = after.keys.index_of(k);
                if i < table.keys.len() {
                    assert(table.keys[i] == k);
                    assert(table.keys.contains(k));
                }
            }
            if after.rows.contains_key(k) {
                if k == key {
                    assert(after.keys[after.keys.len() - 1] == k);
                } else {
                    assert(table.keys.contains(k));
                    let i = table.keys.index_of(k);
                    assert(after.keys[i] == k);
                }
            }
        }
        assert(seq![row].no_duplicates());
    } else if !table.rows[key].contains(row) {
        let held = table.rows[key];
        let grown = held.push(row);
        assert forall|i: int, j: int|
            0 <= i < grown.len() && 0 <= j < grown.len() && i != j implies grown[i] != grown[j] by {
            if i < held.len() && j < held.len() {
                assert(held[i] != held[j]);
            } else if i < held.len() {
                assert(held.contains(held[i]));
            } else {
                assert(held.contains(held[j]));
            }
        }
        assert forall|k: Seq<char>| after.rows.contains_key(k) <==> after.keys.contains(k) by {
            assert(table.rows.contains_key(k) <==> table.keys.contains(k));
        }
    }
}

/// A reported row is held: after `row` was reported under `key`, the table
/// holds it there.
pub proof fn lemma_inserted_is_held<R>(table: TableView<R>, key: Seq<char>, row: R)
    ensures
        holds(inserted(table, key, row), key, row),
{
    if !table.rows.contains_key(key) {
        assert(seq![row][0] == row);
    } else if !table.rows[key].contains(row) {
        assert(table.rows[key].push(row)[table.rows[key].len() as int] == row);
    }
}

/// An exact pair is taken once: reporting a row a second time under the same
/// key changes nothing.
pub proof fn lemma_insert_is_idempotent<R>(table: TableView<R>, key: Seq<char>, row: R)
    ensures
        inserted(inserted(table, key, row), key, row) == inserted(table, key, row),
{
    lemma_inserted_is_held(table, key, row);
}

/// First-seen order is kept: after a row is reported, the keys begin with the
/// keys there were, and the rows of every key there was begin with the rows
/// it had. The rows of any other key are as they were.
pub proof fn lemma_insert_keeps_order<R>(
    table: TableView<R>,
    key: Seq<char>,
    row: R,
    other: Seq<char>,
)
    requires
        table.rows.contains_key(other),
    ensures
        table.keys.is_prefix_of(inserted(table, key, row).keys),
        inserted(table, key, row).rows.contains_key(other),
        table.rows[other].is_prefix_of(inserted(table, key, row).rows[other]),
        other != key ==> inserted(table, key, row).rows[other] == table.rows[other],
{
    let after = inserted(table, key, row);
    assert(table.keys =~= after.keys.take(table.keys.len() as int));
    assert(table.rows[other] =~= after.rows[other].take(table.rows[other].len() as int));
}

/// A record of unknown kind never reaches the table: whatever else it holds,
/// reporting its outcome leaves the table as it is.
pub proof fn lemma_unknown_kind_adds_nothing(
    table: TableView<EquivalenceView>,
    institution: Seq<char>,
    record: Articulation,
)
    requires
        kind_of(record.type_field@) == ArticulationKind::Unknown,
    ensures
        compiled(record) == Err::<CompiledView, CompileErrorView>(
            CompileErrorView::UnknownArticulationKind(record.type_field@),
        ),
        with_outcome(table, institution, compiled(record)) == table,
{
}

/// Reporting the articulations of an institution keeps a table a table.
pub proof fn lemma_records_keep_table(
    table: TableView<EquivalenceView>,
    institution: Seq<char>,
    records: Seq<Articulation>,
)
    requires
        is_table(table),
    ensures
        is_table(with_records(table, institution, records)),
    decreases records.len(),
{
    if records.len() > 0 {
        lemma_records_keep_table(table, institution, records.drop_last());
        let so_far = with_records(table, institution, records.drop_last());
        match compiled(records.last()) {
            Ok(compiled) => {
                lemma_insert_keeps_table(
                    so_far,
                    compiled.receiving_name,
                    equivalence_of(institution, compiled),
                );
            },
            Err(_) => {},
        }
    }
}

/// The greatest length, in bytes of UTF-8, of the institution names of
/// `rows`; zero where there is no row.
pub open spec fn widest_name(rows: Seq<EquivalenceView>) -> nat
    decreases rows.len(),
{
    if rows.len() == 0 {
        0
    } else {
        let before = widest_name(rows.drop_last());
        let here = encode_utf8(rows.last().institution).len();
        if here > before {
            here
        } else {
            before
        }
    }
}

/// `count` spaces; none where `count` is not positive.
pub open spec fn spaces(count: int) -> Seq<char> {
    Seq::new(
        if count > 0 {
            count as nat
        } else {
            0
        },
        |i: int| ' ',
    )
}

/// A row as a line of the table: the institution's name and a colon, filled
/// with spaces up to one column more than `width`, then two spaces and the
/// expression. The fill counts characters.
pub open spec fn table_line(row: EquivalenceView, width: nat) -> Seq<char> {
    row.institution + ":"@ + spaces(width - row.institution.len()) + "  "@ + row.expression
}

/// The lines of the table of `rows`: one line for each row, in order, the
/// expressions aligned behind the widest name.
pub open spec fn table_lines(rows: Seq<EquivalenceView>) -> Seq<Seq<char>> {
    rows.map_values(|row: EquivalenceView| table_line(row, widest_name(rows)))
}

/// Renders the rows of one receiving course as the lines of a table.
pub fn render_table(rows: &Vec<Equivalence>) -> (lines: Vec<String>)
    ensures
        texts(lines@) == table_lines(row_views(rows@)),
{
    let mut width: usize = 0;
    let mut i: usize = 0;
    while i < rows.len()
        invariant
            i <= rows@.len(),
            width == widest_name(row_views(rows@).take(i as int)),
        decreases rows@.len() - i,
    {
        proof {
            let views = row_views(rows@);
            assert(views.take(i + 1).drop_last() == views.take(i as int));
            assert(views.take(i + 1).last() == rows@[i as int]@);
        }
        let here = rows[i].institution.as_str().as_bytes().len();
        if here > width {
            width = here;
        }
        i += 1;
    }
    proof {
        assert(row_views(rows@).take(i as int) == row_views(rows@));
    }
    let mut lines: Vec<String> = Vec::new();
    let mut k: usize = 0;
    while k < rows.len()
        invariant
            k <= rows@.len(),
            width == widest_name(row_views(rows@)),
            texts(lines@) == table_lines(row_views(rows@)).take(k as int),
        decreases rows@.len() - k,
    {
        let row = &rows[k];
        let mut line = row.institution.clone();
        line.append(":");
        let taken = row.institution.as_str().unicode_len();
        let fill: usize = if width > taken {
            width - taken
        } else {
            0
        };
        let mut filled: usize = 0;
        while filled < fill
            invariant
                filled <= fill,
                line@ == row.institution@ + ":"@ + spaces(filled as int),
            decreases fill - filled,
        {
            proof {
                reveal_strlit(" ");
                assert(spaces(filled as int) + " "@ =~= spaces(filled + 1));
            }
            line.append(" ");
            filled += 1;
        }
        line.append("  ");
        line.append(row.expression.as_str());
        proof {
            assert(spaces(filled as int) =~= spaces(width - taken));
            assert(line@ == table_line(row@, width as nat));
            assert(texts(lines@.push(line)) == texts(lines@).push(line@));
        }
        lines.push(line);
        k += 1;
    }
    proof {
        assert(table_lines(row_views(rows@)).take(k as int) == table_lines(row_views(rows@)));
    }
    lines
}

} // verus!
