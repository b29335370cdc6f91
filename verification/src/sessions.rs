//! Sessions over FIXT, and the application version that each of them speaks by default.
use crate::dictionaries::{get_tag_value, opt_str, tag_value};
use crate::text::{same, text_view};
use crate::textmap::{
    comes_before, lemma_text_before_irreflexive, lemma_text_before_total,
    lemma_text_before_transitive, text_before,
};
use vstd::prelude::*;

verus! {

broadcast use vstd::seq_lib::group_seq_properties;

/// One side of a session.
#[derive(Debug)]
pub struct FixtSessionParty {
    pub comp_id: String,
    pub sub_id: Option<String>,
    pub location_id: Option<String>,
}

/// The mathematical content of a `FixtSessionParty`.
pub struct PartyView {
    pub comp_id: Seq<char>,
    pub sub_id: Option<Seq<char>>,
    pub location_id: Option<Seq<char>>,
}

impl View for FixtSessionParty {
    type V = PartyView;

    open spec fn view(&self) -> PartyView {
        PartyView {
            comp_id: self.comp_id@,
            sub_id: text_view(self.sub_id),
            location_id: text_view(self.location_id),
        }
    }
}

/// A session: its two sides, whichever of them sent a message.
#[derive(Debug)]
pub struct FixtSessionKey {
    pub first: FixtSessionParty,
    pub second: FixtSessionParty,
}

/// The mathematical content of a `FixtSessionKey`.
pub struct SessionView {
    pub first: PartyView,
    pub second: PartyView,
}

impl View for FixtSessionKey {
    type V = SessionView;

    open spec fn view(&self) -> SessionView {
        SessionView { first: self.first@, second: self.second@ }
    }
}

/// A side of a session as a message names it.
pub open spec fn party_in(
    msg: Seq<char>,
    comp_tag: Seq<char>,
    sub_tag: Seq<char>,
    location_tag: Seq<char>,
) -> Option<PartyView> {
    match tag_value(msg, comp_tag) {
        Some(comp_id) => Some(
            PartyView {
                comp_id,
                sub_id: tag_value(msg, sub_tag),
                location_id: tag_value(msg, location_tag),
            },
        ),
        None => None,
    }
}

/// Optional texts in order: an absent one comes first.
pub open spec fn option_before(a: Option<Seq<char>>, b: Option<Seq<char>>) -> bool {
    match (a, b) {
        (None, Some(_)) => true,
        (Some(x), Some(y)) => text_before(x, y),
        _ => false,
    }
}

/// `a` comes before `b`, or is the same.
pub open spec fn at_most(a: PartyView, b: PartyView) -> bool {
    if a.comp_id != b.comp_id {
        text_before(a.comp_id, b.comp_id)
    } else if a.sub_id != b.sub_id {
        option_before(a.sub_id, b.sub_id)
    } else if a.location_id != b.location_id {
        option_before(a.location_id, b.location_id)
    } else {
        true
    }
}

/// The session between two sides.
pub open spec fn session_between(a: PartyView, b: PartyView) -> SessionView {
    if at_most(a, b) {
        SessionView { first: a, second: b }
    } else {
        SessionView { first: b, second: a }
    }
}

/// The session that a message belongs to: only FIXT messages that name both sides have one.
pub open spec fn session_of(msg: Seq<char>) -> Option<SessionView> {
    if tag_value(msg, "8"@) != Some("FIXT.1.1"@) {
        None
    } else {
        match (party_in(msg, "49"@, "50"@, "142"@), party_in(msg, "56"@, "57"@, "143"@)) {
            (Some(sender), Some(target)) => Some(session_between(sender, target)),
            _ => None,
        }
    }
}

proof fn lemma_option_order(a: Option<Seq<char>>, b: Option<Seq<char>>)
    ensures
        a != b ==> option_before(a, b) != option_before(b, a),
{
    if let (Some(x), Some(y)) = (a, b) {
        lemma_order_is_strict(x, y);
    }
}

proof fn lemma_order_is_strict(a: Seq<char>, b: Seq<char>)
    ensures
        a != b ==> text_before(a, b) != text_before(b, a),
{
    lemma_text_before_total(a, b);
    if text_before(a, b) && text_before(b, a) {
        lemma_text_before_transitive(a, b, a);
        lemma_text_before_irreflexive(a);
    }
}

proof fn lemma_session_between(a: PartyView, b: PartyView)
    ensures
        session_between(a, b) == session_between(b, a),
{
    lemma_order_is_strict(a.comp_id, b.comp_id);
    lemma_option_order(a.sub_id, b.sub_id);
    lemma_option_order(a.location_id, b.location_id);
}

/// A message and one that goes back, from its target to its sender, belong to one session.
pub proof fn law_session_has_no_direction(there: Seq<char>, back: Seq<char>)
    requires
        tag_value(there, "8"@) == tag_value(back, "8"@),
        party_in(there, "49"@, "50"@, "142"@) == party_in(back, "56"@, "57"@, "143"@),
        party_in(there, "56"@, "57"@, "143"@) == party_in(back, "49"@, "50"@, "142"@),
    ensures
        session_of(there) == session_of(back),
{
    if let (Some(a), Some(b)) = (
        party_in(there, "49"@, "50"@, "142"@),
        party_in(there, "56"@, "57"@, "143"@),
    ) {
        lemma_session_between(a, b);
    }
}

fn same_option(a: &Option<String>, b: &Option<String>) -> (equal: bool)
    ensures
        equal == (text_view(*a) == text_view(*b)),
{
    match (a, b) {
        (Some(x), Some(y)) => same(x.as_str(), y.as_str()),
        (None, None) => true,
        _ => false,
    }
}

fn option_comes_before(a: &Option<String>, b: &Option<String>) -> (yes: bool)
    ensures
        yes == option_before(text_view(*a), text_view(*b)),
{
    match (a, b) {
        (None, Some(_)) => true,
        (Some(x), Some(y)) => comes_before(x.as_str(), y.as_str()),
        _ => false,
    }
}

impl FixtSessionParty {
    /// A side of a session as a message names it.
    pub fn from_message(msg: &str, comp_tag: &str, sub_tag: &str, location_tag: &str) -> (party:
        Option<FixtSessionParty>)
        ensures
            (match party {
                Some(p) => Some(p@),
                None => None,
            }) == party_in(msg@, comp_tag@, sub_tag@, location_tag@),
    {
        match get_tag_value(msg, comp_tag) {
            Some(comp_id) => Some(
                FixtSessionParty {
                    comp_id,
                    sub_id: get_tag_value(msg, sub_tag),
                    location_id: get_tag_value(msg, location_tag),
                },
            ),
            None => None,
        }
    }

    /// Whether this side comes before the other one, or is the same.
    pub fn comes_first(&self, other: &FixtSessionParty) -> (yes: bool)
        ensures
            yes == at_most(self@, other@),
    {
        if !same(self.comp_id.as_str(), other.comp_id.as_str()) {
            comes_before(self.comp_id.as_str(), other.comp_id.as_str())
        } else if !same_option(&self.sub_id, &other.sub_id) {
            option_comes_before(&self.sub_id, &other.sub_id)
        } else if !same_option(&self.location_id, &other.location_id) {
            option_comes_before(&self.location_id, &other.location_id)
        } else {
            true
        }
    }

    fn is(&self, other: &FixtSessionParty) -> (equal: bool)
        ensures
            equal == (self@ == other@),
    {
        same(self.comp_id.as_str(), other.comp_id.as_str()) && same_option(
            &self.sub_id,
            &other.sub_id,
        ) && same_option(&self.location_id, &other.location_id)
    }
}

/// The session that a message belongs to: only FIXT messages that name both sides have one.
pub fn fixt_session_key(msg: &str) -> (key: Option<FixtSessionKey>)
    ensures
        (match key {
            Some(k) => Some(k@),
            None => None,
        }) == session_of(msg@),
{
    match get_tag_value(msg, "8") {
        Some(begin) => {
            if !same(begin.as_str(), "FIXT.1.1") {
                return None;
            }
        },
        None => {
            return None;
        },
    }
    let sender = FixtSessionParty::from_message(msg, "49", "50", "142");
    let target = FixtSessionParty::from_message(msg, "56", "57", "143");
    match (sender, target) {
        (Some(sender), Some(target)) => if sender.comes_first(&target) {
            Some(FixtSessionKey { first: sender, second: target })
        } else {
            Some(FixtSessionKey { first: target, second: sender })
        },
        _ => None,
    }
}

/// The default application version of each session.
#[derive(Debug)]
pub struct SessionDefaults {
    entries: Vec<(FixtSessionKey, String)>,
}

closed spec fn default_keys(entries: Seq<(FixtSessionKey, String)>) -> Seq<SessionView> {
    entries.map_values(|e: (FixtSessionKey, String)| e.0@)
}

impl View for SessionDefaults {
    type V = Map<SessionView, Seq<char>>;

    closed spec fn view(&self) -> Map<SessionView, Seq<char>> {
        Map::new(
            |k: SessionView| default_keys(self.entries@).contains(k),
            |k: SessionView| self.entries@[default_keys(self.entries@).index_of(k)].1@,
        )
    }
}

impl SessionDefaults {
    #[verifier::type_invariant]
    closed spec fn each_once(self) -> bool {
        default_keys(self.entries@).no_duplicates()
    }

    pub fn new() -> (defaults: SessionDefaults)
        ensures
            defaults@ == Map::<SessionView, Seq<char>>::empty(),
    {
        let defaults = SessionDefaults { entries: Vec::new() };
        assert(defaults@ =~= Map::<SessionView, Seq<char>>::empty());
        defaults
    }

    fn find(&self, key: &FixtSessionKey) -> (at: Option<usize>)
        ensures
            match at {
                Some(i) => i < self.entries@.len() && self.entries@[i as int].0@ == key@,
                None => !default_keys(self.entries@).contains(key@),
            },
    {
        let ghost keys = default_keys(self.entries@);
        let mut i: usize = 0;
        while i < self.entries.len()
            invariant
                i <= self.entries@.len(),
                keys == default_keys(self.entries@),
                keys.len() == self.entries@.len(),
                forall|j: int| 0 <= j < i ==> #[trigger] keys[j] != key@,
            decreases self.entries@.len() - i,
        {
            if self.entries[i].0.first.is(&key.first) && self.entries[i].0.second.is(&key.second) {
                return Some(i);
            }
            assert(keys[i as int] == self.entries@[i as int].0@);
            i += 1;
        }
        None
    }

    /// The default version of a session.
    pub fn get(&self, key: &FixtSessionKey) -> (version: Option<&str>)
        ensures
            opt_str(version) == if self@.contains_key(key@) {
                Some(self@[key@])
            } else {
                None
            },
    {
        match self.find(key) {
            Some(at) => {
                proof {
                    use_type_invariant(self);
                    assert(default_keys(self.entries@)[at as int] == key@);
                    assert(default_keys(self.entries@).index_of(key@) == at);
                }
                Some(self.entries[at].1.as_str())
            },
            None => None,
        }
    }

    /// Notes the default version of a session, in place of an earlier one.
    pub fn insert(&mut self, key: FixtSessionKey, version: String)
        ensures
            final(self)@ == old(self)@.insert(key@, version@),
    {
        proof {
            use_type_invariant(&*self);
        }
        let ghost before = self.entries@;
        let ghost keys = default_keys(before);
        let mut entries: Vec<(FixtSessionKey, String)> = Vec::new();
        let found = self.find(&key);
        let ghost map = self@;
        let ghost name = key@;
        let ghost value = version@;
        std::mem::swap(&mut entries, &mut self.entries);
        match found {
            Some(at) => {
                entries.set(at, (key, version));
                proof {
                    assert(keys[at as int] == name);
                    assert(default_keys(entries@) =~= keys);
                }
            },
            None => {
                entries.push((key, version));
                proof {
                    assert(default_keys(entries@) =~= keys.push(name));
                }
            },
        }
        assert(default_keys(entries@).no_duplicates());
        *self = SessionDefaults { entries };
        proof {
            let now = default_keys(self.entries@);
            assert forall|k: SessionView| self@.contains_key(k) == map.insert(
                name,
                value,
            ).contains_key(k) by {
                match found {
                    Some(at) => {
                        assert(keys[at as int] == name);
                    },
                    None => {
                        if k == name {
                            assert(now[now.len() - 1] == name);
                        }
                        if keys.contains(k) {
                            let j = choose|j: int| 0 <= j < keys.len() && keys[j] == k;
                            assert(now[j] == k);
                        }
                        if now.contains(k) && k != name {
                            let j = choose|j: int| 0 <= j < now.len() && now[j] == k;
                            assert(keys[j] == k);
                        }
                    },
                }
            }
            assert forall|k: SessionView| #[trigger]
                self@.contains_key(k) implies self@[k] == map.insert(name, value)[k] by {
                let j = now.index_of(k);
                assert(now.contains(k));
                assert(now[j] == k);
                if k == name {
                    match found {
                        Some(at) => {
                            assert(now[at as int] == name);
                        },
                        None => {
                            assert(now[now.len() - 1] == name);
                        },
                    }
                } else {
                    assert(keys[j] == k);
                    assert(keys.index_of(k) == j);
                }
            }
            assert(self@ =~= map.insert(name, value));
        }
    }
}

} // verus!
