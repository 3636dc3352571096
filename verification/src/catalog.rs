//! Choosing among institutions and agreements: which institutions are
//! universities, which agreements are with community colleges, how an
//! institution is shown, and which academic year an agreement is asked for.

use crate::order::indices;
use crate::types::{Agreement, Institution};
use vstd::prelude::*;
use vstd::string::*;

verus! {

/// The places of a list at which the flag is set, in ascending order.
pub open spec fn selected(flags: Seq<bool>) -> Seq<int>
    decreases flags.len(),
{
    if flags.len() == 0 {
        Seq::empty()
    } else if flags.last() {
        selected(flags.drop_last()).push(flags.len() - 1)
    } else {
        selected(flags.drop_last())
    }
}

/// For each institution, whether it is a university: not a community college.
pub open spec fn university_flags(institutions: Seq<Institution>) -> Seq<bool> {
    institutions.map_values(|i: Institution| !i.is_community_college)
}

/// For each agreement, whether it is with a community college.
pub open spec fn community_college_flags(agreements: Seq<Agreement>) -> Seq<bool> {
    agreements.map_values(|a: Agreement| a.is_community_college)
}

/// The selected places are exactly those at which the flag is set, each once
/// and in ascending order.
pub proof fn lemma_selected(flags: Seq<bool>)
    ensures
        selected(flags).len() <= flags.len(),
        forall|k: int|
            0 <= k < selected(flags).len() ==> 0 <= (#[trigger] selected(flags)[k]) < flags.len()
                && flags[selected(flags)[k]],
        forall|k: int, l: int|
            0 <= k < l < selected(flags).len() ==> (#[trigger] selected(flags)[k]) < (
            #[trigger] selected(flags)[l]),
        forall|i: int| 0 <= i < flags.len() && flags[i] ==> selected(flags).contains(i),
    decreases flags.len(),
{
    if flags.len() > 0 {
        let front = flags.drop_last();
        lemma_selected(front);
        let chosen = selected(flags);
        assert forall|k: int| 0 <= k < chosen.len() implies 0 <= (#[trigger] chosen[k]) < flags.len()
            && flags[chosen[k]] by {
            if k < selected(front).len() {
                assert(chosen[k] == selected(front)[k]);
                assert(front[selected(front)[k]] == flags[selected(front)[k]]);
            }
        }
        assert forall|k: int, l: int| 0 <= k < l < chosen.len() implies (#[trigger] chosen[k]) < (
        #[trigger] chosen[l]) by {
            assert(chosen[k] == selected(front)[k]);
            if l < selected(front).len() {
                assert(chosen[l] == selected(front)[l]);
            }
        }
        assert forall|i: int| 0 <= i < flags.len() && flags[i] implies chosen.contains(i) by {
            if i < front.len() {
                assert(front[i] == flags[i]);
                assert(selected(front).contains(i));
                let k = selected(front).index_of(i);
                assert(chosen[k] == i);
            } else {
                assert(chosen[chosen.len() - 1] == i);
            }
        }
    }
}

/// The places of the universities among `institutions`, in order.
pub fn universities(institutions: &Vec<Institution>) -> (places: Vec<usize>)
    ensures
        indices(places@) == selected(university_flags(institutions@)),
        forall|k: int| 0 <= k < places@.len() ==> (#[trigger] places@[k]) < institutions@.len(),
{
    let mut places: Vec<usize> = Vec::new();
    let mut i: usize = 0;
    while i < institutions.len()
        invariant
            i <= institutions@.len(),
            indices(places@) == selected(university_flags(institutions@).take(i as int)),
            forall|k: int| 0 <= k < places@.len() ==> (#[trigger] places@[k]) < i,
        decreases institutions@.len() - i,
    {
        proof {
            let flags = university_flags(institutions@);
            assert(flags.take(i + 1).drop_last() == flags.take(i as int));
            assert(indices(places@.push(i)) == indices(places@).push(i as int));
        }
        if !institutions[i].is_community_college {
            places.push(i);
        }
        i += 1;
    }
    proof {
        let flags = university_flags(institutions@);
        assert(flags.take(i as int) == flags);
    }
    places
}

/// The places of the agreements with community colleges, in order.
pub fn community_colleges(agreements: &Vec<Agreement>) -> (places: Vec<usize>)
    ensures
        indices(places@) == selected(community_college_flags(agreements@)),
        forall|k: int| 0 <= k < places@.len() ==> (#[trigger] places@[k]) < agreements@.len(),
{
    let mut places: Vec<usize> = Vec::new();
    let mut i: usize = 0;
    while i < agreements.len()
        invariant
            i <= agreements@.len(),
            indices(places@) == selected(community_college_flags(agreements@).take(i as int)),
            forall|k: int| 0 <= k < places@.len() ==> (#[trigger] places@[k]) < i,
        decreases agreements@.len() - i,
    {
        proof {
            let flags = community_college_flags(agreements@);
            assert(flags.take(i + 1).drop_last() == flags.take(i as int));
            assert(indices(places@.push(i)) == indices(places@).push(i as int));
        }
        if agreements[i].is_community_college {
            places.push(i);
        }
        i += 1;
    }
    proof {
        let flags = community_college_flags(agreements@);
        assert(flags.take(i as int) == flags);
    }
    places
}

impl Institution {
    /// How the institution is shown: by the first of its names.
    pub fn display_name(&self) -> (name: String)
        requires
            self.names@.len() > 0,
        ensures
            name@ == self.names@[0].name@,
    {
        self.names[0].name.clone()
    }
}

impl Agreement {
    /// The academic year for which the agreement's majors are asked: the last
    /// of the sending institution's year ids, if it has any.
    pub fn latest_sending_year(&self) -> (year: Option<i64>)
        ensures
            self.sending_year_ids@.len() == 0 ==> year is None,
            self.sending_year_ids@.len() > 0 ==> year == Some(self.sending_year_ids@.last()),
    {
        let count = self.sending_year_ids.len();
        if count == 0 {
            None
        } else {
            Some(self.sending_year_ids[count - 1])
        }
    }
}

} // verus!
