use vstd::prelude::*;

use crate::codec::{
    dec_generator, enc_generator, lemma_generator_roundtrip, spec_dec_generator,
    spec_enc_generator, spec_info_wf, spec_pairs_view, spec_pairs_wf,
};
use crate::error::FlowError;
use crate::flow_id::{
    lemma_same_flow_symmetric, lemma_same_flow_transitive, spec_same_flow, FlowId,
};
use crate::flow_information::{FlowInformation, FlowInformationView};
use crate::json::{parse_json, print_json, spec_parse_json, spec_print};
use crate::text::{chars_string, str_chars};

verus! {

/// Whether no two pairs name the same flow.
pub open spec fn spec_pairs_unique(pairs: Seq<(FlowId, FlowInformationView)>) -> bool {
    forall|i: int, j: int|
        0 <= i < j < pairs.len() ==> !spec_same_flow(
            (#[trigger] pairs[i]).0,
            (#[trigger] pairs[j]).0,
        )
}

/// The flow table: a mapping from canonical flow identifiers to flow
/// records, with one entry per flow in either orientation.
///
/// The table grows by insertion and is persisted as a whole; iteration
/// order is the insertion order, which callers must not rely on.
#[derive(Debug)]
pub struct Generator {
    flow_map: Vec<(FlowId, FlowInformation)>,
}

impl View for Generator {
    type V = Seq<(FlowId, FlowInformationView)>;

    closed spec fn view(&self) -> Seq<(FlowId, FlowInformationView)> {
        spec_pairs_view(self.flow_map@)
    }
}

impl Generator {
    /// Well-formedness: no two entries name the same flow, and every
    /// stored packet timestamp is well formed.
    pub open spec fn wf(self) -> bool {
        &&& spec_pairs_unique(self@)
        &&& spec_pairs_wf(self@)
    }

    /// Whether some entry's key names the same flow as `k`.
    pub open spec fn spec_contains_key(self, k: FlowId) -> bool {
        exists|i: int| 0 <= i < self@.len() && spec_same_flow((#[trigger] self@[i]).0, k)
    }

    /// The empty flow table.
    pub fn new() -> (r: Generator)
        ensures
            r@ == Seq::<(FlowId, FlowInformationView)>::empty(),
            r.wf(),
    {
        let r = Generator { flow_map: Vec::new() };
        proof {
            assert(r@ =~= Seq::<(FlowId, FlowInformationView)>::empty());
        }
        r
    }

    /// The number of flows in the table.
    pub fn len(&self) -> (r: usize)
        ensures
            r == self@.len(),
    {
        self.flow_map.len()
    }

    /// The index of the entry whose key names the same flow as `k`, if
    /// any.
    fn index_of(&self, k: &FlowId) -> (r: Option<usize>)
        ensures
            match r {
                Some(i) => i < self@.len() && spec_same_flow(self@[i as int].0, *k),
                None => !self.spec_contains_key(*k),
            },
    {
        let mut i: usize = 0;
        while i < self.flow_map.len()
            invariant
                0 <= i <= self.flow_map@.len(),
                forall|t: int| 0 <= t < i ==> !spec_same_flow((#[trigger] self@[t]).0, *k),
            decreases self.flow_map@.len() - i,
        {
            if self.flow_map[i].0 == *k {
                proof {
                    assert(self@[i as int].0 == self.flow_map@[i as int].0);
                }
                return Some(i);
            }
            proof {
                assert(self@[i as int].0 == self.flow_map@[i as int].0);
            }
            i = i + 1;
        }
        None
    }

    /// Whether the table holds an entry for the flow of `k`, in either
    /// orientation.
    pub fn contains_key(&self, k: &FlowId) -> (r: bool)
        ensures
            r == self.spec_contains_key(*k),
    {
        match self.index_of(k) {
            Some(_) => true,
            None => false,
        }
    }

    /// The record of the flow of `k`, if the table holds one.
    pub fn get(&self, k: &FlowId) -> (r: Option<&FlowInformation>)
        ensures
            match r {
                Some(fi) => exists|i: int|
                    0 <= i < self@.len() && spec_same_flow((#[trigger] self@[i]).0, *k)
                        && fi@ == self@[i].1,
                None => !self.spec_contains_key(*k),
            },
    {
        match self.index_of(k) {
            Some(i) => {
                proof {
                    assert(self@[i as int].1 == self.flow_map@[i as int].1@);
                }
                Some(&self.flow_map[i].1)
            },
            None => None,
        }
    }

    /// A mutable borrow of the record of the flow of `k`, if the table
    /// holds one.
    ///
    /// The borrow can change the record freely; a caller that needs the
    /// table to stay well formed must keep the record's packet timestamps
    /// well formed.
    pub fn get_mut(&mut self, k: &FlowId) -> (r: Option<&mut FlowInformation>)
        ensures
            match r {
                Some(fi) => {
                    &&& exists|i: int|
                        0 <= i < old(self)@.len() && spec_same_flow(
                            (#[trigger] old(self)@[i]).0,
                            *k,
                        ) && fi@ == old(self)@[i].1 && final(self)@ == old(self)@.update(
                            i,
                            (old(self)@[i].0, final(fi)@),
                        )
                },
                None => !old(self).spec_contains_key(*k) && final(self)@ == old(self)@,
            },
    {
        let found = self.index_of(k);
        match found {
            Some(i) => Some(&mut self.flow_map[i].1),
            None => None,
        }
    }

    /// Insert a record under `key`: a fresh entry when the flow is new,
    /// replacing the flow's entry otherwise.
    pub fn add(&mut self, key: FlowId, value: FlowInformation)
        requires
            old(self).wf(),
            spec_info_wf(value@),
        ensures
            final(self).wf(),
            if old(self).spec_contains_key(key) {
                exists|i: int|
                    0 <= i < old(self)@.len() && spec_same_flow((#[trigger] old(self)@[i]).0, key)
                        && final(self)@ == old(self)@.update(i, (key, value@))
            } else {
                final(self)@ == old(self)@.push((key, value@))
            },
    {
        let found = self.index_of(&key);
        match found {
            Some(i) => {
                self.flow_map.remove(i);
                self.flow_map.insert(i, (key, value));
                proof {
                    let ghost vv = value@;
                    assert(self@ =~= old(self)@.update(i as int, (key, vv)));
                    assert forall|a: int, b: int|
                        0 <= a < b < self@.len() implies !spec_same_flow(
                        (#[trigger] self@[a]).0,
                        (#[trigger] self@[b]).0,
                    ) by {
                        if a == i || b == i {
                            lemma_same_flow_symmetric(old(self)@[i as int].0, key);
                            if a == i {
                                if spec_same_flow(key, old(self)@[b].0) {
                                    lemma_same_flow_symmetric(key, old(self)@[i as int].0);
                                    lemma_same_flow_transitive(
                                        old(self)@[i as int].0,
                                        key,
                                        old(self)@[b].0,
                                    );
                                }
                            } else {
                                if spec_same_flow(old(self)@[a].0, key) {
                                    lemma_same_flow_transitive(
                                        old(self)@[a].0,
                                        key,
                                        old(self)@[i as int].0,
                                    );
                                }
                            }
                        }
                    }
                }
            },
            None => {
                self.flow_map.push((key, value));
                proof {
                    let ghost vv = value@;
                    assert(self@ =~= old(self)@.push((key, vv)));
                    assert forall|a: int, b: int|
                        0 <= a < b < self@.len() implies !spec_same_flow(
                        (#[trigger] self@[a]).0,
                        (#[trigger] self@[b]).0,
                    ) by {
                        if b == self@.len() - 1 {
                            lemma_same_flow_symmetric(self@[a].0, key);
                        }
                    }
                }
            },
        }
    }

    /// A mutable borrow of the record of the flow of `key`, inserting a
    /// fresh empty record first when the flow is new; never fails.
    ///
    /// The borrow can change the record freely; a caller that needs the
    /// table to stay well formed must keep the record's packet timestamps
    /// well formed.
    pub fn get_or_create(&mut self, key: FlowId) -> (r: &mut FlowInformation)
        requires
            old(self).wf(),
        ensures
            if old(self).spec_contains_key(key) {
                exists|i: int|
                    0 <= i < old(self)@.len() && spec_same_flow((#[trigger] old(self)@[i]).0, key)
                        && r@ == old(self)@[i].1 && final(self)@ == old(self)@.update(
                        i,
                        (old(self)@[i].0, final(r)@),
                    )
            } else {
                r@.sni is None && r@.forward_packet_list == Seq::<
                    crate::packet::Packet,
                >::empty() && r@.backward_packet_list == Seq::<crate::packet::Packet>::empty()
                    && final(self)@ == old(self)@.push((key, final(r)@))
            },
    {
        let found = self.index_of(&key);
        match found {
            Some(i) => &mut self.flow_map[i].1,
            None => {
                self.flow_map.push((key, FlowInformation::new()));
                let ghost n = self.flow_map@.len() - 1;
                let last = self.flow_map.len() - 1;
                proof {
                    assert(self@ =~= old(self)@.push((key, self.flow_map@[n].1@)));
                }
                &mut self.flow_map[last].1
            },
        }
    }

    /// The table's entries, for iteration; the order carries no meaning.
    pub fn pairs(&self) -> (r: &Vec<(FlowId, FlowInformation)>)
        ensures
            spec_pairs_view(r@) == self@,
    {
        &self.flow_map
    }

    /// The persisted text of the table.
    pub fn save(&self) -> (r: String)
        ensures
            r@ == spec_save(self@),
    {
        let doc = enc_generator(&self.flow_map);
        let chars = print_json(&doc);
        chars_string(&chars)
    }

    /// Rebuild a table from its persisted text.
    ///
    /// An object's fields are accepted in any order. Fails with
    /// [`FlowError::MalformedPersistedState`] exactly when the text is not
    /// the persisted form of a table: a parse failure, a structural
    /// mismatch (wrong type, missing, unknown or duplicate field), or a
    /// duplicate flow key.
    #[verifier::loop_isolation(false)]
    pub fn load(text: &str) -> (r: Result<Generator, FlowError>)
        requires
            2 * text@.len() + 2 <= usize::MAX,
        ensures
            match spec_load(text@) {
                Some(gv) => r matches Ok(g) && g@ == gv && g.wf(),
                None => r == Err::<Generator, FlowError>(FlowError::MalformedPersistedState),
            },
    {
        let chars = str_chars(text);
        let doc = match parse_json(&chars) {
            Some(j) => j,
            None => {
                return Err(FlowError::MalformedPersistedState);
            },
        };
        let pairs = match dec_generator(&doc) {
            Some(ps) => ps,
            None => {
                return Err(FlowError::MalformedPersistedState);
            },
        };
        let g = Generator { flow_map: pairs };
        let mut i: usize = 1;
        while i < g.flow_map.len()
            invariant
                1 <= i <= g.flow_map@.len() || g.flow_map@.len() == 0,
                g@ == spec_pairs_view(g.flow_map@),
                forall|a: int, b: int|
                    0 <= a < b < i ==> !spec_same_flow(
                        (#[trigger] g@[a]).0,
                        (#[trigger] g@[b]).0,
                    ),
            decreases g.flow_map@.len() - i,
        {
            let mut j: usize = 0;
            while j < i
                invariant
                    0 <= j <= i < g.flow_map@.len(),
                    g@ == spec_pairs_view(g.flow_map@),
                    forall|a: int, b: int|
                        0 <= a < b < i ==> !spec_same_flow(
                            (#[trigger] g@[a]).0,
                            (#[trigger] g@[b]).0,
                        ),
                    forall|t: int|
                        0 <= t < j ==> !spec_same_flow((#[trigger] g@[t]).0, g@[i as int].0),
                decreases i - j,
            {
                if g.flow_map[j].0 == g.flow_map[i].0 {
                    proof {
                        assert(spec_same_flow(g@[j as int].0, g@[i as int].0));
                    }
                    return Err(FlowError::MalformedPersistedState);
                }
                proof {
                    assert(g@[j as int].0 == g.flow_map@[j as int].0);
                    assert(g@[i as int].0 == g.flow_map@[i as int].0);
                }
                j = j + 1;
            }
            i = i + 1;
        }
        Ok(g)
    }
}

/// The persisted text of table contents.
pub open spec fn spec_save(gv: Seq<(FlowId, FlowInformationView)>) -> Seq<char> {
    spec_print(spec_enc_generator(gv))
}

/// The table contents denoted by a persisted text, if it is well formed
/// and holds no duplicate flow key.
pub open spec fn spec_load(t: Seq<char>) -> Option<Seq<(FlowId, FlowInformationView)>> {
    match spec_parse_json(t) {
        Some(jv) => match spec_dec_generator(jv) {
            Some(ps) => {
                if spec_pairs_unique(ps) {
                    Some(ps)
                } else {
                    None
                }
            },
            None => None,
        },
        None => None,
    }
}

/// Law: loading the saved text of a table yields exactly the table's
/// contents, whatever the order of its entries.
///
/// For any well-formed table contents (no duplicate flow key, well-formed
/// packet timestamps), the persisted round trip is the identity.
pub proof fn lemma_load_save(gv: Seq<(FlowId, FlowInformationView)>)
    requires
        spec_pairs_unique(gv),
        spec_pairs_wf(gv),
    ensures
        spec_load(spec_save(gv)) == Some(gv),
{
    lemma_generator_roundtrip(gv);
    crate::json::lemma_parse_print_json(spec_enc_generator(gv));
}

} // verus!
