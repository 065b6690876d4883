use vstd::prelude::*;

use crate::chars::str_eq;
use crate::keymap::config_pairs_view;
use crate::keymap::Bindings;
use crate::devices::keyboard::spec_keystroke_of;
use crate::devices::keyboard::KeyStroke;

verus! {

/// A thing a verb can act on.
#[derive(Debug, Copy, Clone, Eq, PartialEq, Structural)]
pub enum Noun {
    Line,
}

/// The noun a configuration name stands for.
pub open spec fn spec_noun_of(s: Seq<char>) -> Option<Noun> {
    if s == "line"@ {
        Some(Noun::Line)
    } else {
        None
    }
}

impl Noun {
    /// Parses a configuration name into a noun.
    pub fn from_description(desc: &str) -> (r: Option<Noun>)
        ensures
            r == spec_noun_of(desc@),
    {
        if str_eq(desc, "line") {
            Some(Noun::Line)
        } else {
            None
        }
    }
}

/// The keystroke bindings of this table.
pub struct Nouns {
    map: Bindings<KeyStroke, Noun>,
}

impl vstd::view::View for Nouns {
    type V = Map<KeyStroke, Noun>;

    closed spec fn view(&self) -> Map<KeyStroke, Noun> {
        self.map@
    }
}

/// The bindings the table starts with.
pub open spec fn spec_default_nouns() -> Map<KeyStroke, Noun> {
    Map::empty().insert(
        KeyStroke::Char('l'),
        Noun::Line,
    )
}

/// The configuration pairs `(name, key description)` folded onto the
/// bindings from index `i` on: a pair both of whose sides parse overrides
/// the binding for its key, any other pair is ignored.
pub open spec fn spec_config_fold(
    m: Map<KeyStroke, Noun>,
    pairs: Seq<(Seq<char>, Seq<char>)>,
    i: int,
) -> Map<KeyStroke, Noun>
    decreases pairs.len() - i,
{
    if i < 0 || i >= pairs.len() {
        m
    } else {
        let next = match (spec_keystroke_of(pairs[i].1), spec_noun_of(pairs[i].0)) {
            (Some(k), Some(a)) => m.insert(k, a),
            _ => m,
        };
        spec_config_fold(next, pairs, i + 1)
    }
}

impl Default for Nouns {
    /// The default bindings.
    fn default() -> (r: Self)
        ensures
            r@ == spec_default_nouns(),
    {
        let mut map: Bindings<KeyStroke, Noun> = Bindings::new();
        map.insert(KeyStroke::Char('l'), Noun::Line);
        Nouns { map }
    }
}

impl Nouns {
    /// The noun bound to `key`, if any.
    pub fn get(&self, key: KeyStroke) -> (r: Option<Noun>)
        ensures
            r == if self@.contains_key(key) {
                Some(self@[key])
            } else {
                None::<Noun>
            },
    {
        self.map.get(key)
    }

    /// Binds `value` to `key`, overwriting any earlier binding.
    pub fn insert(&mut self, key: KeyStroke, value: Noun)
        ensures
            final(self)@ == old(self)@.insert(key, value),
    {
        self.map.insert(key, value);
    }

    /// The default bindings, overridden by every configuration pair whose
    /// key description and name both parse; invalid pairs change nothing.
    pub fn from_config(config_pairs: &Vec<(String, String)>) -> (r: Self)
        ensures
            r@ == spec_config_fold(
                spec_default_nouns(),
                config_pairs_view(config_pairs@),
                0,
            ),
    {
        let ghost pv = config_pairs_view(config_pairs@);
        let mut table = Nouns::default();
        let mut i: usize = 0;
        while i < config_pairs.len()
            invariant
                i <= config_pairs@.len(),
                pv == config_pairs_view(config_pairs@),
                pv.len() == config_pairs@.len(),
                spec_config_fold(spec_default_nouns(), pv, 0) == spec_config_fold(
                    table@,
                    pv,
                    i as int,
                ),
            decreases config_pairs@.len() - i,
        {
            proof {
                assert(pv[i as int] == (config_pairs@[i as int].0@, config_pairs@[i as int].1@));
            }
            let key_res = KeyStroke::from_description(config_pairs[i].1.as_str());
            let value_res = Noun::from_description(config_pairs[i].0.as_str());
            if key_res.is_some() && value_res.is_some() {
                table.insert(key_res.unwrap(), value_res.unwrap());
            }
            i = i + 1;
        }
        table
    }
}

} // verus!
