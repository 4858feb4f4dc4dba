//! Named registers for text and recorded keys, and the ring of killed text.

use crate::keys::KeyEvent;
use std::collections::HashMap;
use vstd::prelude::*;
use vstd::string::*;

verus! {

broadcast use vstd::std_specs::hash::group_hash_axioms;

/// The register that stands for the system clipboard.
pub const CLIPBOARD_REGISTER: char = 'c';

/// The register that swallows what is written to it.
pub const BLACK_HOLE_REGISTER: char = 'b';

/// The register that stands for the kill ring.
pub const KILL_RING_REGISTER: char = 'k';

/// The register of the last search pattern.
pub const SEARCH_REGISTER: char = 's';

/// The register that macros go to when none is named.
pub const MACRO_REGISTER: char = 'q';

/// What one register holds: a text for each selection, or keys to be typed again.
pub enum Register {
    Text(Vec<String>),
    Macro(Vec<KeyEvent>),
}

/// What one register holds, as a value.
pub enum Held {
    Text(Seq<Seq<char>>),
    Macro(Seq<KeyEvent>),
}

/// The texts of a list of strings.
pub open spec fn texts(v: Seq<String>) -> Seq<Seq<char>> {
    v.map_values(|s: String| s@)
}

impl View for Register {
    type V = Held;

    open spec fn view(&self) -> Held {
        match self {
            Register::Text(v) => Held::Text(texts(v@)),
            Register::Macro(k) => Held::Macro(k@),
        }
    }
}

/// A copy of a list of strings.
pub fn copy_texts(v: &Vec<String>) -> (r: Vec<String>)
    ensures
        texts(r@) == texts(v@),
{
    let mut r: Vec<String> = Vec::new();
    let n = v.len();
    let mut i: usize = 0;
    while i < n
        invariant
            i <= n == v@.len(),
            texts(r@) == texts(v@).take(i as int),
        decreases n - i,
    {
        let ghost done = texts(r@);
        let s = v[i].clone();
        let ghost sv = s@;
        r.push(s);
        i = i + 1;
        assert(texts(r@) =~= done.push(sv));
        assert(texts(r@) =~= texts(v@).take(i as int));
    }
    assert(texts(r@) =~= texts(v@));
    r
}

/// A copy of a list of keys.
pub fn copy_keys(v: &Vec<KeyEvent>) -> (r: Vec<KeyEvent>)
    ensures
        r@ == v@,
{
    let mut r: Vec<KeyEvent> = Vec::new();
    let n = v.len();
    let mut i: usize = 0;
    while i < n
        invariant
            i <= n == v@.len(),
            r@ == v@.take(i as int),
        decreases n - i,
    {
        r.push(v[i]);
        i = i + 1;
        assert(r@ =~= v@.take(i as int));
    }
    assert(r@ =~= v@);
    r
}

/// Different characters have different codes.
proof fn lemma_char_code(a: char, b: char)
    requires
        a as u32 == b as u32,
    ensures
        a == b,
{
    vstd::utf8::char_u32_cast(a, a as u32);
    vstd::utf8::char_u32_cast(b, b as u32);
}

/// The named registers.
pub struct RegisterSet {
    map: HashMap<u32, Register>,
}

impl RegisterSet {
    /// What the register `name` holds, if anything was written to it.
    pub closed spec fn held(&self, name: char) -> Option<Held> {
        if self.map@.contains_key(name as u32) {
            Some(self.map@[name as u32]@)
        } else {
            None
        }
    }

    /// The text in the register `name`.
    pub open spec fn text(&self, name: char) -> Option<Seq<Seq<char>>> {
        match self.held(name) {
            Some(Held::Text(t)) => Some(t),
            _ => None,
        }
    }

    /// The keys in the register `name`.
    pub open spec fn keys(&self, name: char) -> Option<Seq<KeyEvent>> {
        match self.held(name) {
            Some(Held::Macro(k)) => Some(k),
            _ => None,
        }
    }

    pub fn new() -> (r: RegisterSet)
        ensures
            forall|c: char| #[trigger] r.held(c) is None,
    {
        RegisterSet { map: HashMap::new() }
    }

    /// The text in the register `name`; `None` where it is empty or holds keys.
    pub fn read_text(&self, name: char) -> (r: Option<&Vec<String>>)
        ensures
            match r {
                Some(v) => self.text(name) == Some(texts(v@)),
                None => self.text(name) is None,
            },
    {
        let k: u32 = name as u32;
        match self.map.get(&k) {
            Some(Register::Text(v)) => Some(v),
            _ => None,
        }
    }

    /// The keys in the register `name`; `None` where it is empty or holds text.
    pub fn read_macro(&self, name: char) -> (r: Option<&Vec<KeyEvent>>)
        ensures
            match r {
                Some(v) => self.keys(name) == Some(v@),
                None => self.keys(name) is None,
            },
    {
        let k: u32 = name as u32;
        match self.map.get(&k) {
            Some(Register::Macro(v)) => Some(v),
            _ => None,
        }
    }

    /// Writes text to the register `name`.
    pub fn write_text(&mut self, name: char, values: Vec<String>)
        ensures
            forall|c: char| #[trigger]
                final(self).held(c) == (if c == name {
                    Some(Held::Text(texts(values@)))
                } else {
                    old(self).held(c)
                }),
    {
        let k: u32 = name as u32;
        let _ = self.map.insert(k, Register::Text(values));
        assert forall|c: char| #[trigger]
            self.held(c) == (if c == name {
                Some(Held::Text(texts(values@)))
            } else {
                old(self).held(c)
            }) by {
            if c as u32 == name as u32 {
                lemma_char_code(c, name);
            }
        }
    }

    /// Writes keys to the register `name`.
    pub fn write_macro(&mut self, name: char, keys: Vec<KeyEvent>)
        ensures
            forall|c: char| #[trigger]
                final(self).held(c) == (if c == name {
                    Some(Held::Macro(keys@))
                } else {
                    old(self).held(c)
                }),
    {
        let k: u32 = name as u32;
        let _ = self.map.insert(k, Register::Macro(keys));
        assert forall|c: char| #[trigger]
            self.held(c) == (if c == name {
                Some(Held::Macro(keys@))
            } else {
                old(self).held(c)
            }) by {
            if c as u32 == name as u32 {
                lemma_char_code(c, name);
            }
        }
    }
}

/// How many kills the ring remembers.
pub const KILL_RING_DEPTH: usize = 10;

/// Killed and yanked texts, the newest first, and how far cycling through them has led.
pub struct KillRing {
    slots: Vec<Vec<String>>,
    cycle: Option<usize>,
}

/// A kill ring as a value.
#[verifier::ext_equal]
pub struct Ring {
    pub slots: Seq<Seq<Seq<char>>>,
    pub cycle: Option<usize>,
}

impl Ring {
    /// The ring with one more kill. The oldest leaves a full ring; cycling starts over.
    pub open spec fn pushed(self, v: Seq<Seq<char>>) -> Ring {
        let all = seq![v] + self.slots;
        Ring {
            slots: if all.len() > KILL_RING_DEPTH {
                all.take(KILL_RING_DEPTH as int)
            } else {
                all
            },
            cycle: None,
        }
    }

    pub open spec fn head(self) -> Option<Seq<Seq<char>>> {
        if self.slots.len() > 0 {
            Some(self.slots[0])
        } else {
            None
        }
    }

    /// One step to older kills, where there is one.
    pub open spec fn older(self) -> (Ring, Option<Seq<Seq<char>>>) {
        let next: int = match self.cycle {
            Some(i) => i + 1,
            None => 0,
        };
        if next < self.slots.len() {
            (Ring { cycle: Some(next as usize), ..self }, Some(self.slots[next]))
        } else {
            (self, None)
        }
    }

    /// One step to newer kills, where there is one.
    pub open spec fn newer(self) -> (Ring, Option<Seq<Seq<char>>>) {
        match self.cycle {
            Some(i) => if 0 < i && i <= self.slots.len() {
                (Ring { cycle: Some((i - 1) as usize), ..self }, Some(self.slots[i - 1]))
            } else {
                (self, None)
            },
            None => (self, None),
        }
    }
}

pub open spec fn slots_of(v: Seq<Vec<String>>) -> Seq<Seq<Seq<char>>> {
    v.map_values(|s: Vec<String>| texts(s@))
}

impl View for KillRing {
    type V = Ring;

    closed spec fn view(&self) -> Ring {
        Ring { slots: slots_of(self.slots@), cycle: self.cycle }
    }
}

impl KillRing {
    pub fn new() -> (r: KillRing)
        ensures
            r@ == (Ring { slots: Seq::empty(), cycle: None }),
    {
        let r = KillRing { slots: Vec::new(), cycle: None };
        assert(r@.slots =~= Seq::empty());
        r
    }

    pub fn push(&mut self, values: Vec<String>)
        ensures
            final(self)@ == old(self)@.pushed(texts(values@)),
    {
        let ghost s0 = slots_of(self.slots@);
        self.slots.insert(0, values);
        assert(slots_of(self.slots@) =~= seq![texts(values@)] + s0);
        if self.slots.len() > KILL_RING_DEPTH {
            self.slots.truncate(KILL_RING_DEPTH);
            assert(slots_of(self.slots@) =~= (seq![texts(values@)] + s0).take(
                KILL_RING_DEPTH as int,
            ));
        }
        self.cycle = None;
    }

    /// The newest kill.
    pub fn head(&self) -> (r: Option<&Vec<String>>)
        ensures
            match r {
                Some(v) => self@.head() == Some(texts(v@)),
                None => self@.head() is None,
            },
    {
        if self.slots.len() > 0 {
            Some(&self.slots[0])
        } else {
            None
        }
    }

    /// Sets where cycling goes on from.
    pub fn seed_cycle(&mut self, origin: Option<usize>)
        ensures
            final(self)@ == (Ring { cycle: origin, ..old(self)@ }),
    {
        self.cycle = origin;
    }

    pub fn cycle_older(&mut self) -> (r: Option<Vec<String>>)
        ensures
            final(self)@ == old(self)@.older().0,
            match r {
                Some(v) => old(self)@.older().1 == Some(texts(v@)),
                None => old(self)@.older().1 is None,
            },
    {
        let n = self.slots.len();
        let next: usize = match self.cycle {
            Some(i) => {
                if i >= n {
                    return None;
                }
                i + 1
            },
            None => 0,
        };
        if next < n {
            self.cycle = Some(next);
            Some(copy_texts(&self.slots[next]))
        } else {
            None
        }
    }

    pub fn cycle_newer(&mut self) -> (r: Option<Vec<String>>)
        ensures
            final(self)@ == old(self)@.newer().0,
            match r {
                Some(v) => old(self)@.newer().1 == Some(texts(v@)),
                None => old(self)@.newer().1 is None,
            },
    {
        let n = self.slots.len();
        match self.cycle {
            Some(i) => {
                if 0 < i && i <= n {
                    self.cycle = Some(i - 1);
                    Some(copy_texts(&self.slots[i - 1]))
                } else {
                    None
                }
            },
            None => None,
        }
    }
}

/// A step to an older kill is undone by a step to a newer one, unless it was the first.
pub proof fn law_ring_cycle_back(r: Ring)
    requires
        r.slots.len() <= KILL_RING_DEPTH,
        r.cycle is Some,
        r.older().1 is Some,
    ensures
        r.older().0.newer().0 == r,
        r.older().0.newer().1 == (if r.cycle->0 < r.slots.len() {
            Some(r.slots[r.cycle->0 as int])
        } else {
            None
        }),
{
}

/// The registers that have a meaning of their own.
pub proof fn law_register_names()
    ensures
        CLIPBOARD_REGISTER == 'c',
        BLACK_HOLE_REGISTER == 'b',
        KILL_RING_REGISTER == 'k',
        SEARCH_REGISTER == 's',
        MACRO_REGISTER == 'q',
{
}

/// A new kill comes first, the ten newest are kept in their order, and cycling starts over.
pub proof fn law_ring_keeps_the_newest(r: Ring, v: Seq<Seq<char>>)
    ensures
        ({
            let p = r.pushed(v);
            &&& p.head() == Some(v)
            &&& p.cycle is None
            &&& p.slots.len() == (if r.slots.len() < 10 {
                r.slots.len() + 1
            } else {
                10
            })
            &&& forall|i: int| 0 < i < p.slots.len() ==> #[trigger] p.slots[i] == r.slots[i - 1]
        }),
{
}

/// Cycling to older kills begins with the newest one and goes on one at a time; behind the oldest
/// it stays. Cycling to newer ones goes the same way back, and stays at the newest.
pub proof fn law_ring_cycles_one_at_a_time(r: Ring, i: usize)
    requires
        i < usize::MAX,
    ensures
        r.slots.len() > 0 ==> (Ring { cycle: None, ..r }).older() == (
            Ring { cycle: Some(0), ..r },
            Some(r.slots[0]),
        ),
        i + 1 < r.slots.len() ==> (Ring { cycle: Some(i), ..r }).older() == (
            Ring { cycle: Some((i + 1) as usize), ..r },
            Some(r.slots[i + 1]),
        ),
        i + 1 < r.slots.len() ==> (Ring { cycle: Some((i + 1) as usize), ..r }).newer() == (
            Ring { cycle: Some(i), ..r },
            Some(r.slots[i as int]),
        ),
        i + 1 >= r.slots.len() ==> (Ring { cycle: Some(i), ..r }).older() == (
            Ring { cycle: Some(i), ..r },
            None::<Seq<Seq<char>>>,
        ),
        (Ring { cycle: Some(0), ..r }).newer().1 is None,
        (Ring { cycle: None, ..r }).newer().1 is None,
        r.slots.len() == 0 ==> r.head() is None,
{
}

} // verus!
