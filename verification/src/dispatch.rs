//! From key presses in normal and extend mode to commands: counts, key sequences, commands
//! that wait for a character, and macros.

use crate::keymap::{canon, KeyTrie, Keymap, WaitCharPending, Walk, WalkResult};
use crate::keys::{key_of, no_modifiers, KeyCode, KeyEvent, KeyModifiers};
use crate::registers::{copy_keys, Held, RegisterSet, MACRO_REGISTER};
use crate::registry::CommandRegistry;
use crate::strings::{alphabetic, decimal, digit, is_alphabetic};
use std::collections::VecDeque;
use vstd::prelude::*;
use vstd::string::*;

verus! {

/// The modes of the editor.
#[derive(Debug, Clone, Copy, PartialEq, Eq, Structural)]
pub enum Mode {
    Normal,
    Insert,
    Extend,
    Command,
    Search,
    Select,
}

/// The name of a mode, as hooks see it.
pub open spec fn spec_mode_name(m: Mode) -> Seq<char> {
    match m {
        Mode::Normal => "normal"@,
        Mode::Insert => "insert"@,
        Mode::Extend => "extend"@,
        Mode::Command => "command"@,
        Mode::Search => "search"@,
        Mode::Select => "select"@,
    }
}

/// The name of a mode, as hooks see it.
pub fn mode_name(m: Mode) -> (r: &'static str)
    ensures
        r@ == spec_mode_name(m),
{
    match m {
        Mode::Normal => "normal",
        Mode::Insert => "insert",
        Mode::Extend => "extend",
        Mode::Command => "command",
        Mode::Search => "search",
        Mode::Select => "select",
    }
}

/// A macro key was pressed; the next key names the register.
#[derive(Debug, Clone, Copy, PartialEq, Eq, Structural)]
pub enum MacroPending {
    Record,
    Replay,
}

/// A macro that is being recorded.
#[derive(Debug)]
pub struct MacroRecording {
    pub register: char,
    pub keys: Vec<KeyEvent>,
}

/// What is known between two key presses.
#[derive(Debug)]
pub struct KeyState {
    pub mode: Mode,
    /// The terminal speaks the kitty keyboard protocol.
    pub kitty_enabled: bool,
    /// The keys of an unfinished sequence.
    pub pending_keys: Vec<KeyEvent>,
    pub count: Option<usize>,
    /// The command that runs was given a count.
    pub explicit_count: bool,
    pub wait_char: Option<WaitCharPending>,
    /// The character that a waiting command was given.
    pub pending_char: Option<char>,
    pub macro_recording: Option<MacroRecording>,
    pub macro_pending: Option<MacroPending>,
    /// The current key does not go into the macro.
    pub skip_macro_record: bool,
    /// The keys come from a macro.
    pub is_replaying: bool,
    /// Keys to be handled before the next key of the terminal.
    pub replay_queue: VecDeque<KeyEvent>,
}

/// A command that waits for a character.
pub struct Waiting {
    pub cmd: Seq<char>,
    pub ctrl_extend: bool,
}

/// A macro in the making.
#[verifier::ext_equal]
pub struct Recording {
    pub register: char,
    pub keys: Seq<KeyEvent>,
}

/// The key state as a value.
#[verifier::ext_equal]
pub struct Keys {
    pub mode: Mode,
    pub kitty: bool,
    pub pending: Seq<KeyEvent>,
    pub count: Option<usize>,
    pub explicit_count: bool,
    pub wait: Option<Waiting>,
    pub pending_char: Option<char>,
    pub recording: Option<Recording>,
    pub macro_pending: Option<MacroPending>,
    pub skip_record: bool,
    pub replaying: bool,
    pub queue: Seq<KeyEvent>,
}

impl View for KeyState {
    type V = Keys;

    open spec fn view(&self) -> Keys {
        Keys {
            mode: self.mode,
            kitty: self.kitty_enabled,
            pending: self.pending_keys@,
            count: self.count,
            explicit_count: self.explicit_count,
            wait: match self.wait_char {
                Some(w) => Some(Waiting { cmd: w.cmd_name@, ctrl_extend: w.ctrl_extend }),
                None => None,
            },
            pending_char: self.pending_char,
            recording: match self.macro_recording {
                Some(m) => Some(Recording { register: m.register, keys: m.keys@ }),
                None => None,
            },
            macro_pending: self.macro_pending,
            skip_record: self.skip_macro_record,
            replaying: self.is_replaying,
            queue: self.replay_queue@,
        }
    }
}

/// What a key asks for.
#[derive(Debug)]
pub enum NormalAction {
    Nothing,
    /// Drop the search highlights.
    ClearSearch,
    /// Run a command.
    Execute { name: String, count: usize, extend: bool },
    /// A character that no key sequence holds. It may open a pair.
    Unbound { ch: char },
}

/// What a key asks for, as a value.
pub enum Act {
    Nothing,
    ClearSearch,
    Execute(Seq<char>, usize, bool),
    Unbound(char),
}

impl View for NormalAction {
    type V = Act;

    open spec fn view(&self) -> Act {
        match self {
            NormalAction::Nothing => Act::Nothing,
            NormalAction::ClearSearch => Act::ClearSearch,
            NormalAction::Execute { name, count, extend } => Act::Execute(name@, *count, *extend),
            NormalAction::Unbound { ch } => Act::Unbound(*ch),
        }
    }
}

/// What one key does: the state after it, what it asks for, and the macro that it
/// finished.
pub struct Step {
    pub keys: Keys,
    pub act: Act,
    pub stored: Option<Recording>,
}

/// Nothing but a new key state.
pub open spec fn quiet(keys: Keys) -> Step {
    Step { keys, act: Act::Nothing, stored: None }
}

/// Only the shift key.
pub open spec fn only_shift() -> KeyModifiers {
    KeyModifiers { shift: true, ..no_modifiers() }
}

/// A capital letter needs no shift key beside it.
pub open spec fn unshifted(key: KeyEvent) -> KeyEvent {
    match key.code {
        KeyCode::Char(c) => if key.modifiers == only_shift() && alphabetic(c) {
            key_of(key.code, no_modifiers())
        } else {
            key
        },
        _ => key,
    }
}

/// The registers that macros may go to: the default one and the ten digits.
pub open spec fn macro_register(c: char) -> bool {
    c == MACRO_REGISTER || '0' <= c && c <= '9'
}

/// Whether a macro may be recorded to, or replayed from, the register `ch`.
pub fn is_valid_macro_register(ch: char) -> (r: bool)
    ensures
        r == macro_register(ch),
{
    ch == MACRO_REGISTER || ('0' <= ch && ch <= '9')
}

/// `ks`, `n` times in a row.
pub open spec fn times(ks: Seq<KeyEvent>, n: nat) -> Seq<KeyEvent>
    decreases n,
{
    if n == 0 {
        Seq::empty()
    } else {
        times(ks, (n - 1) as nat) + ks
    }
}

pub open spec fn count_or_one(count: Option<usize>) -> usize {
    match count {
        Some(n) => n,
        None => 1,
    }
}

impl Keys {
    /// The key state at the start.
    pub open spec fn fresh(kitty: bool) -> Keys {
        Keys {
            mode: Mode::Normal,
            kitty,
            pending: Seq::empty(),
            count: None,
            explicit_count: false,
            wait: None,
            pending_char: None,
            recording: None,
            macro_pending: None,
            skip_record: false,
            replaying: false,
            queue: Seq::empty(),
        }
    }

    /// The key state after the macro in `register` was asked for.
    pub open spec fn replaying_macro(self, registers: RegisterSet, register: char) -> Keys {
        Keys {
            count: None,
            queue: match registers.keys(register) {
                Some(ks) => self.queue + times(ks, count_or_one(self.count) as nat),
                None => self.queue,
            },
            ..self
        }
    }

    /// The count after a digit that belongs to it.
    pub open spec fn counted(self, key: KeyEvent) -> Option<int> {
        match key.code {
            KeyCode::Char(c) => if self.pending.len() == 0 && key.modifiers == no_modifiers() && (
            '1' <= c && c <= '9' || c == '0' && self.count is Some) {
                let before: int = match self.count {
                    Some(n) => n as int,
                    None => 0,
                };
                Some(before * 10 + (c as int - '0' as int))
            } else {
                None
            },
            _ => None,
        }
    }

    /// Whether the key is one of the two macro keys, at the start of a sequence.
    pub open spec fn macro_key(self, key: KeyEvent) -> bool {
        self.pending.len() == 0 && key.modifiers == no_modifiers() && (key.code == KeyCode::Char(
            'Q',
        ) || key.code == KeyCode::Char('q'))
    }

    /// A command waits for this key. A key that is no character makes it give up.
    pub open spec fn given(self, w: Waiting, key: KeyEvent) -> Step {
        let k = Keys { wait: None, count: None, ..self };
        match key.code {
            KeyCode::Char(c) => Step {
                keys: Keys { pending_char: Some(c), ..k },
                act: Act::Execute(
                    w.cmd,
                    count_or_one(self.count),
                    self.mode == Mode::Extend || w.ctrl_extend,
                ),
                stored: None,
            },
            _ => quiet(k),
        }
    }

    /// Escape starts over.
    pub open spec fn escaped(self) -> Step {
        Step {
            keys: Keys {
                pending: Seq::empty(),
                count: None,
                macro_pending: None,
                mode: if self.mode == Mode::Extend {
                    Mode::Normal
                } else {
                    self.mode
                },
                ..self
            },
            act: Act::ClearSearch,
            stored: None,
        }
    }

    /// The key behind a macro key names the register; any other key gives up.
    pub open spec fn named(self, p: MacroPending, registers: RegisterSet, key: KeyEvent) -> Step {
        let k = Keys { macro_pending: None, ..self };
        quiet(
            match p {
                MacroPending::Record => {
                    let k1 = Keys { count: None, ..k };
                    match key.code {
                        KeyCode::Char(c) => if c == 'Q' || macro_register(c) {
                            Keys {
                                recording: Some(
                                    Recording {
                                        register: if c == 'Q' {
                                            MACRO_REGISTER
                                        } else {
                                            c
                                        },
                                        keys: Seq::empty(),
                                    },
                                ),
                                skip_record: true,
                                ..k1
                            }
                        } else {
                            k1
                        },
                        _ => k1,
                    }
                },
                MacroPending::Replay => match key.code {
                    KeyCode::Char(c) => if macro_register(c) {
                        k.replaying_macro(registers, c)
                    } else {
                        k
                    },
                    _ => k,
                },
            },
        )
    }

    /// A macro key. Recording starts and ends with `Q`; `q` replays. A macro neither
    /// records nor replays another.
    pub open spec fn macro_pressed(self, key: KeyEvent) -> Step {
        if key.code == KeyCode::Char('Q') {
            match self.recording {
                Some(m) => Step {
                    keys: Keys { recording: None, ..self },
                    act: Act::Nothing,
                    stored: Some(m),
                },
                None => if self.replaying {
                    quiet(self)
                } else {
                    quiet(Keys { macro_pending: Some(MacroPending::Record), ..self })
                },
            }
        } else if !self.replaying && self.recording is None {
            quiet(Keys { macro_pending: Some(MacroPending::Replay), ..self })
        } else {
            quiet(self)
        }
    }

    /// The keys of the sequence led to `walk`.
    pub open spec fn arrived(self, walk: Walk, ctrl_extend: bool, key: KeyEvent) -> Step {
        match walk {
            Walk::Leaf(n) => Step {
                keys: Keys {
                    pending: Seq::empty(),
                    count: None,
                    explicit_count: self.count is Some,
                    ..self
                },
                act: Act::Execute(
                    n,
                    count_or_one(self.count),
                    self.mode == Mode::Extend || ctrl_extend,
                ),
                stored: None,
            },
            Walk::WaitChar(n, _) => quiet(
                Keys { pending: Seq::empty(), wait: Some(Waiting { cmd: n, ctrl_extend }), ..self },
            ),
            Walk::Interior(_) => quiet(self),
            Walk::NoMatch => Step {
                keys: Keys { pending: Seq::empty(), count: None, ..self },
                act: match key.code {
                    KeyCode::Char(c) => if !key.modifiers.control {
                        Act::Unbound(c)
                    } else {
                        Act::Nothing
                    },
                    _ => Act::Nothing,
                },
                stored: None,
            },
        }
    }

    /// The key is looked up in the normal trie. A key with control at the start of a
    /// sequence that is not bound stands, on a kitty terminal, for the bare key that
    /// extends the selection.
    pub open spec fn looked_up(
        self,
        normal: KeyTrie,
        registry: CommandRegistry,
        key: KeyEvent,
    ) -> Step {
        if key.modifiers.control && self.pending.len() == 0 {
            let own = normal.at(canon(seq![key]));
            if own !is NoMatch {
                self.arrived(own, leads_to_extendable(registry, own), key)
            } else if self.kitty {
                let bare = key_of(key.code, no_modifiers());
                let w = normal.at(canon(seq![bare]));
                if leads_to_extendable(registry, w) {
                    Keys { pending: seq![bare], ..self }.arrived(w, true, key)
                } else {
                    quiet(Keys { pending: Seq::empty(), count: None, ..self })
                }
            } else {
                quiet(self)
            }
        } else {
            let ks = self.pending.push(key);
            Keys { pending: ks, ..self }.arrived(normal.at(canon(ks)), false, key)
        }
    }

    /// In extend mode the extend trie comes first; what it binds runs as it is.
    pub open spec fn resolved(
        self,
        keymap: Keymap,
        registry: CommandRegistry,
        key: KeyEvent,
    ) -> Step {
        let ks = self.pending.push(key);
        if self.mode == Mode::Extend && !key.modifiers.control {
            match keymap.extend.at(canon(ks)) {
                Walk::Leaf(n) => Step {
                    keys: Keys {
                        pending: Seq::empty(),
                        count: None,
                        explicit_count: false,
                        ..self
                    },
                    act: Act::Execute(n, count_or_one(self.count), false),
                    stored: None,
                },
                Walk::Interior(_) => quiet(Keys { pending: ks, ..self }),
                Walk::WaitChar(n, c) => quiet(
                    Keys { wait: Some(Waiting { cmd: n, ctrl_extend: c }), ..self },
                ),
                Walk::NoMatch => self.looked_up(keymap.normal, registry, key),
            }
        } else {
            self.looked_up(keymap.normal, registry, key)
        }
    }

    /// What a key does in normal and extend mode.
    pub open spec fn pressed(
        self,
        keymap: Keymap,
        registry: CommandRegistry,
        registers: RegisterSet,
        pressed: KeyEvent,
    ) -> Step {
        let key = unshifted(pressed);
        match self.wait {
            Some(w) => self.given(w, key),
            None => if key.code == KeyCode::Esc {
                self.escaped()
            } else {
                match self.macro_pending {
                    Some(p) => self.named(p, registers, key),
                    None => match self.counted(key) {
                        Some(n) => quiet(Keys { count: Some(n as usize), ..self }),
                        None => if self.macro_key(key) {
                            self.macro_pressed(key)
                        } else {
                            self.resolved(keymap, registry, key)
                        },
                    },
                }
            },
        }
    }
}

/// The walk led to a command that can extend the selection.
pub open spec fn leads_to_extendable(registry: CommandRegistry, w: Walk) -> bool {
    match w {
        Walk::Leaf(n) => match registry.mappable(n) {
            Some(c) => c.extendable(),
            None => false,
        },
        Walk::WaitChar(n, _) => match registry.mappable(n) {
            Some(c) => c.extendable(),
            None => false,
        },
        _ => false,
    }
}

fn name_extendable(registry: &CommandRegistry, name: &str) -> (r: bool)
    ensures
        r == (match registry.mappable(name@) {
            Some(c) => c.extendable(),
            None => false,
        }),
{
    match registry.get_mappable(name) {
        Some(c) => c.is_extendable(),
        None => false,
    }
}

fn extendable(registry: &CommandRegistry, w: &WalkResult) -> (r: bool)
    ensures
        r == leads_to_extendable(*registry, w@),
{
    match w {
        WalkResult::Leaf(c) => name_extendable(registry, c.name.as_str()),
        WalkResult::WaitChar(w) => name_extendable(registry, w.cmd_name.as_str()),
        _ => false,
    }
}

fn unshift(key: KeyEvent) -> (r: KeyEvent)
    ensures
        r == unshifted(key),
{
    let m = key.modifiers;
    match key.code {
        KeyCode::Char(c) => {
            if m.shift && !m.control && !m.alt && !m.super_key && !m.hyper && !m.meta
                && is_alphabetic(c) {
                KeyEvent::new(key.code, KeyModifiers::none())
            } else {
                key
            }
        },
        _ => key,
    }
}

impl KeyState {
    pub fn new(kitty_enabled: bool) -> (r: KeyState)
        ensures
            r@ == Keys::fresh(kitty_enabled),
    {
        KeyState {
            mode: Mode::Normal,
            kitty_enabled,
            pending_keys: Vec::new(),
            count: None,
            explicit_count: false,
            wait_char: None,
            pending_char: None,
            macro_recording: None,
            macro_pending: None,
            skip_macro_record: false,
            is_replaying: false,
            replay_queue: VecDeque::new(),
        }
    }

    fn take_count(&mut self) -> (r: usize)
        ensures
            r == count_or_one(old(self)@.count),
            final(self)@ == (Keys { count: None, ..old(self)@ }),
    {
        let n: usize = match self.count {
            Some(n) => n,
            None => 1,
        };
        self.count = None;
        n
    }

    /// Queues the keys of the macro in `reg`, as many times as the count says. The count is
    /// used up.
    pub fn enqueue_macro_replay(&mut self, registers: &RegisterSet, reg: char)
        ensures
            final(self)@ == old(self)@.replaying_macro(*registers, reg),
    {
        let count = self.take_count();
        if let Some(keys) = registers.read_macro(reg) {
            let ghost q0 = self.replay_queue@;
            let ghost k0 = self@;
            let mut i: usize = 0;
            while i < count
                invariant
                    i <= count,
                    self@ == (Keys { queue: q0 + times(keys@, i as nat), ..k0 }),
                decreases count - i,
            {
                let ghost q1 = self.replay_queue@;
                let n = keys.len();
                let mut j: usize = 0;
                while j < n
                    invariant
                        j <= n == keys@.len(),
                        self@ == (Keys { queue: q1 + keys@.take(j as int), ..k0 }),
                    decreases n - j,
                {
                    self.replay_queue.push_back(keys[j]);
                    j = j + 1;
                    assert(keys@.take(j as int) =~= keys@.take(j - 1).push(keys@[j - 1]));
                    assert(self@ =~= (Keys { queue: q1 + keys@.take(j as int), ..k0 }));
                }
                i = i + 1;
                assert(keys@.take(n as int) =~= keys@);
                assert(self@ =~= (Keys { queue: q0 + times(keys@, i as nat), ..k0 }));
            }
        }
    }

    fn give(&mut self, w: WaitCharPending, key: KeyEvent) -> (r: NormalAction)
        ensures
            ({
                let s = old(self)@.given(
                    Waiting { cmd: w.cmd_name@, ctrl_extend: w.ctrl_extend },
                    key,
                );
                &&& final(self)@ == s.keys
                &&& r@ == s.act
            }),
    {
        self.wait_char = None;
        let count = self.take_count();
        match key.code {
            KeyCode::Char(ch) => {
                self.pending_char = Some(ch);
                let extend = self.mode == Mode::Extend || w.ctrl_extend;
                NormalAction::Execute { name: w.cmd_name, count, extend }
            },
            _ => NormalAction::Nothing,
        }
    }

    fn escape(&mut self) -> (r: NormalAction)
        ensures
            final(self)@ == old(self)@.escaped().keys,
            r@ == Act::ClearSearch,
    {
        self.pending_keys = Vec::new();
        self.count = None;
        self.macro_pending = None;
        if self.mode == Mode::Extend {
            self.mode = Mode::Normal;
        }
        NormalAction::ClearSearch
    }

    fn name_macro(&mut self, p: MacroPending, registers: &RegisterSet, key: KeyEvent)
        ensures
            final(self)@ == old(self)@.named(p, *registers, key).keys,
    {
        self.macro_pending = None;
        match p {
            MacroPending::Record => {
                self.count = None;
                match key.code {
                    KeyCode::Char(c) => {
                        if c == 'Q' {
                            self.macro_recording = Some(
                                MacroRecording { register: MACRO_REGISTER, keys: Vec::new() },
                            );
                            self.skip_macro_record = true;
                        } else if is_valid_macro_register(c) {
                            self.macro_recording = Some(
                                MacroRecording { register: c, keys: Vec::new() },
                            );
                            self.skip_macro_record = true;
                        }
                    },
                    _ => {},
                }
            },
            MacroPending::Replay => match key.code {
                KeyCode::Char(c) => {
                    if is_valid_macro_register(c) {
                        self.enqueue_macro_replay(registers, c);
                    }
                },
                _ => {},
            },
        }
    }

    /// Adds the key to the count, where it is a digit of one.
    fn add_digit(&mut self, key: KeyEvent) -> (r: bool)
        requires
            old(self)@.counted(key) matches Some(n) ==> n <= usize::MAX,
        ensures
            match old(self)@.counted(key) {
                Some(n) => r && final(self)@ == (Keys { count: Some(n as usize), ..old(self)@ }),
                None => !r && final(self)@ == old(self)@,
            },
    {
        if self.pending_keys.len() != 0 || key.modifiers != KeyModifiers::none() {
            return false;
        }
        match key.code {
            KeyCode::Char(c) => {
                if ('1' <= c && c <= '9') || (c == '0' && self.count.is_some()) {
                    let before: usize = match self.count {
                        Some(n) => n,
                        None => 0,
                    };
                    let d: usize = c as usize - '0' as usize;
                    self.count = Some(before * 10 + d);
                    return true;
                }
                false
            },
            _ => false,
        }
    }

    fn press_macro_key(&mut self, registers: &mut RegisterSet, key: KeyEvent)
        requires
            old(self)@.macro_key(key),
        ensures
            ({
                let s = old(self)@.macro_pressed(key);
                &&& final(self)@ == s.keys
                &&& stores(*old(registers), s.stored, *final(registers))
            }),
    {
        if key.code == KeyCode::Char('Q') {
            match self.macro_recording.take() {
                Some(m) => {
                    registers.write_macro(m.register, m.keys);
                },
                None => {
                    if !self.is_replaying {
                        self.macro_pending = Some(MacroPending::Record);
                    }
                },
            }
        } else if !self.is_replaying && self.macro_recording.is_none() {
            self.macro_pending = Some(MacroPending::Replay);
        }
    }

    fn arrive(&mut self, walk: WalkResult, ctrl_extend: bool, key: KeyEvent) -> (r: NormalAction)
        ensures
            ({
                let s = old(self)@.arrived(walk@, ctrl_extend, key);
                &&& final(self)@ == s.keys
                &&& r@ == s.act
            }),
    {
        match walk {
            WalkResult::Leaf(cmd) => {
                self.pending_keys = Vec::new();
                self.explicit_count = self.count.is_some();
                let count = self.take_count();
                let extend = self.mode == Mode::Extend || ctrl_extend;
                NormalAction::Execute { name: cmd.name, count, extend }
            },
            WalkResult::WaitChar(wc) => {
                self.pending_keys = Vec::new();
                self.wait_char = Some(WaitCharPending { cmd_name: wc.cmd_name, ctrl_extend });
                NormalAction::Nothing
            },
            WalkResult::Interior { name } => NormalAction::Nothing,
            WalkResult::NoMatch => {
                self.pending_keys = Vec::new();
                self.count = None;
                match key.code {
                    KeyCode::Char(ch) => {
                        if !key.modifiers.control {
                            NormalAction::Unbound { ch }
                        } else {
                            NormalAction::Nothing
                        }
                    },
                    _ => NormalAction::Nothing,
                }
            },
        }
    }

    fn look_up(&mut self, normal: &KeyTrie, registry: &CommandRegistry, key: KeyEvent) -> (r:
        NormalAction)
        ensures
            ({
                let s = old(self)@.looked_up(*normal, *registry, key);
                &&& final(self)@ == s.keys
                &&& r@ == s.act
            }),
    {
        if key.modifiers.control && self.pending_keys.len() == 0 {
            let mut own_keys: Vec<KeyEvent> = Vec::new();
            own_keys.push(key);
            assert(own_keys@ =~= seq![key]);
            let own = normal.walk(&own_keys);
            match own {
                WalkResult::NoMatch => {
                    if !self.kitty_enabled {
                        return NormalAction::Nothing;
                    }
                    let bare = KeyEvent::new(key.code, KeyModifiers::none());
                    self.pending_keys.push(bare);
                    assert(self.pending_keys@ =~= seq![bare]);
                    let walk = normal.walk(&self.pending_keys);
                    if !extendable(registry, &walk) {
                        self.pending_keys = Vec::new();
                        self.count = None;
                        return NormalAction::Nothing;
                    }
                    self.arrive(walk, true, key)
                },
                own => {
                    let ctrl_extend = extendable(registry, &own);
                    self.arrive(own, ctrl_extend, key)
                },
            }
        } else {
            self.pending_keys.push(key);
            let walk = normal.walk(&self.pending_keys);
            self.arrive(walk, false, key)
        }
    }

    fn resolve(&mut self, keymap: &Keymap, registry: &CommandRegistry, key: KeyEvent) -> (r:
        NormalAction)
        ensures
            ({
                let s = old(self)@.resolved(*keymap, *registry, key);
                &&& final(self)@ == s.keys
                &&& r@ == s.act
            }),
    {
        if self.mode == Mode::Extend && !key.modifiers.control {
            let mut ks = copy_keys(&self.pending_keys);
            ks.push(key);
            match keymap.extend.walk(&ks) {
                WalkResult::Leaf(cmd) => {
                    self.pending_keys = Vec::new();
                    let count = self.take_count();
                    self.explicit_count = false;
                    return NormalAction::Execute { name: cmd.name, count, extend: false };
                },
                WalkResult::Interior { name } => {
                    self.pending_keys = ks;
                    return NormalAction::Nothing;
                },
                WalkResult::WaitChar(wc) => {
                    self.wait_char = Some(wc);
                    return NormalAction::Nothing;
                },
                WalkResult::NoMatch => {},
            }
        }
        self.look_up(&keymap.normal, registry, key)
    }

    /// Handles a key in normal and extend mode: says what it asks for, and keeps what it
    /// leaves for the next key. A count that grows beyond `usize` is left out.
    pub fn handle_normal(
        &mut self,
        keymap: &Keymap,
        registry: &CommandRegistry,
        registers: &mut RegisterSet,
        pressed: KeyEvent,
    ) -> (r: NormalAction)
        requires
            old(self)@.wait is None && old(self)@.macro_pending is None ==> {
                old(self)@.counted(unshifted(pressed)) matches Some(n) ==> n <= usize::MAX
            },
        ensures
            ({
                let s = old(self)@.pressed(*keymap, *registry, *old(registers), pressed);
                &&& final(self)@ == s.keys
                &&& r@ == s.act
                &&& stores(*old(registers), s.stored, *final(registers))
            }),
    {
        let key = unshift(pressed);
        match self.wait_char.take() {
            Some(w) => {
                return self.give(w, key);
            },
            None => {},
        }
        if key.code == KeyCode::Esc {
            return self.escape();
        }
        match self.macro_pending {
            Some(p) => {
                self.name_macro(p, registers, key);
                return NormalAction::Nothing;
            },
            None => {},
        }
        if self.add_digit(key) {
            return NormalAction::Nothing;
        }
        if self.pending_keys.len() == 0 && key.modifiers == KeyModifiers::none() && (key.code
            == KeyCode::Char('Q') || key.code == KeyCode::Char('q')) {
            self.press_macro_key(registers, key);
            return NormalAction::Nothing;
        }
        self.resolve(keymap, registry, key)
    }

    /// Ends the handling of a key: it goes into the macro that is being recorded, unless it
    /// is the one that started it.
    pub fn record_key(&mut self, key: KeyEvent)
        ensures
            final(self)@ == old(self)@.recorded(key),
    {
        let record = !self.skip_macro_record;
        self.skip_macro_record = false;
        if record {
            match self.macro_recording.take() {
                Some(m) => {
                    let mut keys = m.keys;
                    keys.push(key);
                    self.macro_recording = Some(MacroRecording { register: m.register, keys });
                },
                None => {},
            }
        }
    }
}

impl Keys {
    /// The key state once a key was handled.
    pub open spec fn recorded(self, key: KeyEvent) -> Keys {
        Keys {
            skip_record: false,
            recording: match self.recording {
                Some(m) => if self.skip_record {
                    Some(m)
                } else {
                    Some(Recording { keys: m.keys.push(key), ..m })
                },
                None => None,
            },
            ..self
        }
    }
}

/// The registers after a macro was stored.
pub open spec fn stores(before: RegisterSet, m: Option<Recording>, after: RegisterSet) -> bool {
    forall|c: char| #[trigger]
        after.held(c) == (match m {
            Some(m) => if c == m.register {
                Some(Held::Macro(m.keys))
            } else {
                before.held(c)
            },
            None => before.held(c),
        })
}

/// A bare character key.
pub open spec fn plain(c: char) -> KeyEvent {
    key_of(KeyCode::Char(c), no_modifiers())
}

/// Ending a recording and then replaying its register queues exactly the keys that were
/// recorded.
pub proof fn law_macro_round_trip(
    k: Keys,
    m: Recording,
    keymap: Keymap,
    registry: CommandRegistry,
    before: RegisterSet,
    after: RegisterSet,
)
    requires
        k.recording == Some(m),
        k.wait is None,
        k.macro_pending is None,
        k.count is None,
        k.pending.len() == 0,
        !k.replaying,
        macro_register(m.register),
        stores(before, k.pressed(keymap, registry, before, plain('Q')).stored, after),
    ensures
        ({
            let ended = k.pressed(keymap, registry, before, plain('Q')).keys.recorded(plain('Q'));
            let asked = ended.pressed(keymap, registry, after, plain('q')).keys.recorded(
                plain('q'),
            );
            let named = asked.pressed(keymap, registry, after, plain(m.register));
            &&& ended.recording is None
            &&& named.act == Act::Nothing
            &&& named.keys.queue == k.queue + m.keys
        }),
{
    assert(after.held(m.register) == Some(Held::Macro(m.keys)));
    assert(times(m.keys, 1) =~= m.keys) by {
        assert(times(m.keys, 0) =~= Seq::empty());
    }
}

/// While a macro is replayed, neither macro key does anything, unless a recording is to be
/// ended.
pub proof fn law_no_nested_macros(
    k: Keys,
    keymap: Keymap,
    registry: CommandRegistry,
    registers: RegisterSet,
    c: char,
)
    requires
        k.replaying,
        k.recording is None,
        k.wait is None,
        k.macro_pending is None,
        k.pending.len() == 0,
        c == 'Q' || c == 'q',
    ensures
        k.pressed(keymap, registry, registers, plain(c)) == quiet(k),
{
}

/// Escape leads to normal mode, with no keys, count or macro key left over, unless a
/// command waits for a character; then it only ends the waiting.
pub proof fn law_escape_starts_over(
    k: Keys,
    keymap: Keymap,
    registry: CommandRegistry,
    registers: RegisterSet,
)
    requires
        k.mode == Mode::Normal || k.mode == Mode::Extend,
    ensures
        ({
            let esc = key_of(KeyCode::Esc, no_modifiers());
            let after = k.pressed(keymap, registry, registers, esc).keys;
            &&& after.count is None
            &&& after.wait is None
            &&& k.wait is None ==> after.mode == Mode::Normal && after.pending.len() == 0
                && after.macro_pending is None
            &&& k.wait is Some ==> after.mode == k.mode && after.pending == k.pending
        }),
{
}

/// The key state after the keys `ks`, one after the other.
pub open spec fn after_keys(
    k: Keys,
    keymap: Keymap,
    registry: CommandRegistry,
    registers: RegisterSet,
    ks: Seq<KeyEvent>,
) -> Keys
    decreases ks.len(),
{
    if ks.len() == 0 {
        k
    } else {
        after_keys(k, keymap, registry, registers, ks.drop_last()).pressed(
            keymap,
            registry,
            registers,
            ks.last(),
        ).keys
    }
}

/// None of the keys `ks` asks for anything or finishes a macro.
pub open spec fn asks_nothing(
    k: Keys,
    keymap: Keymap,
    registry: CommandRegistry,
    registers: RegisterSet,
    ks: Seq<KeyEvent>,
) -> bool
    decreases ks.len(),
{
    ks.len() > 0 ==> {
        let s = after_keys(k, keymap, registry, registers, ks.drop_last()).pressed(
            keymap,
            registry,
            registers,
            ks.last(),
        );
        &&& asks_nothing(k, keymap, registry, registers, ks.drop_last())
        &&& s.act == Act::Nothing
        &&& s.stored is None
    }
}

/// The keys that type the characters `s`.
pub open spec fn typing(s: Seq<char>) -> Seq<KeyEvent> {
    Seq::new(s.len(), |i: int| plain(s[i]))
}

/// No sequence is begun, and neither a macro key nor a command waits for a key.
pub open spec fn at_root(k: Keys) -> bool {
    k.wait is None && k.macro_pending is None && k.pending.len() == 0
}

proof fn lemma_after_keys_add(
    k: Keys,
    keymap: Keymap,
    registry: CommandRegistry,
    registers: RegisterSet,
    a: Seq<KeyEvent>,
    b: Seq<KeyEvent>,
)
    ensures
        after_keys(k, keymap, registry, registers, a + b) == after_keys(
            after_keys(k, keymap, registry, registers, a),
            keymap,
            registry,
            registers,
            b,
        ),
    decreases b.len(),
{
    if b.len() == 0 {
        assert(a + b =~= a);
    } else {
        assert((a + b).drop_last() =~= a + b.drop_last());
        lemma_after_keys_add(k, keymap, registry, registers, a, b.drop_last());
    }
}

proof fn lemma_asks_nothing_push(
    k: Keys,
    keymap: Keymap,
    registry: CommandRegistry,
    registers: RegisterSet,
    ks: Seq<KeyEvent>,
    key: KeyEvent,
)
    requires
        asks_nothing(k, keymap, registry, registers, ks),
        ({
            let s = after_keys(k, keymap, registry, registers, ks).pressed(
                keymap,
                registry,
                registers,
                key,
            );
            s.act == Act::Nothing && s.stored is None
        }),
    ensures
        asks_nothing(k, keymap, registry, registers, ks.push(key)),
{
    assert(ks.push(key).drop_last() =~= ks);
}

/// The digits of a number, typed one after the other where no count is begun, are that
/// number as the count, and change nothing else.
#[verifier::rlimit(50)]
pub proof fn law_digits_are_the_count(
    k: Keys,
    keymap: Keymap,
    registry: CommandRegistry,
    registers: RegisterSet,
    n: nat,
)
    requires
        at_root(k),
        k.count is None,
        0 < n <= usize::MAX,
    ensures
        after_keys(k, keymap, registry, registers, typing(decimal(n))) == (Keys {
            count: Some(n as usize),
            ..k
        }),
        asks_nothing(k, keymap, registry, registers, typing(decimal(n))),
    decreases n,
{
    let c = digit(n % 10);
    assert(c as nat == '0' as nat + n % 10);
    if n < 10 {
        let ks = typing(decimal(n));
        assert(ks =~= seq![plain(c)]);
        assert(ks.drop_last() =~= Seq::empty());
        let none = Seq::<KeyEvent>::empty();
        assert(after_keys(k, keymap, registry, registers, none) == k);
        assert(none.push(plain(c)) =~= ks);
        lemma_asks_nothing_push(k, keymap, registry, registers, none, plain(c));
        assert(after_keys(k, keymap, registry, registers, ks) =~= (Keys {
            count: Some(n as usize),
            ..k
        }));
    } else {
        let m = n / 10;
        law_digits_are_the_count(k, keymap, registry, registers, m);
        let before = typing(decimal(m));
        let ks = typing(decimal(n));
        assert(ks =~= before.push(plain(c)));
        assert(ks.drop_last() =~= before);
        let kb = Keys { count: Some(m as usize), ..k };
        assert(kb.counted(plain(c)) == Some((m * 10 + n % 10) as int));
        lemma_asks_nothing_push(k, keymap, registry, registers, before, plain(c));
        assert(after_keys(k, keymap, registry, registers, ks) =~= (Keys {
            count: Some(n as usize),
            ..k
        }));
    }
}

/// A key that can be part of a key sequence as it is: neither escape, nor with shift or
/// control held down.
pub open spec fn bare(key: KeyEvent) -> bool {
    key.code != KeyCode::Esc && !key.modifiers.shift && !key.modifiers.control
}

/// A key that begins a key sequence: it is no digit, save a zero where no count is begun, and
/// none of the macro keys.
pub open spec fn begins_sequence(key: KeyEvent, counting: bool) -> bool {
    &&& bare(key)
    &&& key.modifiers == no_modifiers() ==> match key.code {
        KeyCode::Char(c) => c != 'q' && c != 'Q' && !('1' <= c && c <= '9') && !(c == '0'
            && counting),
        _ => true,
    }
}

/// The keys `ks` lead to `end` in the normal trie, and to nothing on the way. In extend mode
/// the extend trie knows none of them.
pub open spec fn sequence_to(k: Keys, keymap: Keymap, ks: Seq<KeyEvent>, end: Walk) -> bool {
    &&& ks.len() > 0
    &&& begins_sequence(ks[0], k.count is Some)
    &&& forall|i: int| 0 <= i < ks.len() ==> bare(#[trigger] ks[i])
    &&& forall|i: int|
        0 < i < ks.len() ==> (#[trigger] keymap.normal.at(canon(ks.take(i)))) is Interior
    &&& keymap.normal.at(canon(ks)) == end
    &&& k.mode == Mode::Extend ==> forall|i: int|
        0 < i <= ks.len() ==> #[trigger] keymap.extend.at(canon(ks.take(i))) == Walk::NoMatch
}

proof fn lemma_inside_sequence(
    k: Keys,
    keymap: Keymap,
    registry: CommandRegistry,
    registers: RegisterSet,
    ks: Seq<KeyEvent>,
    end: Walk,
    n: int,
)
    requires
        at_root(k),
        sequence_to(k, keymap, ks, end),
        0 <= n < ks.len(),
    ensures
        after_keys(k, keymap, registry, registers, ks.take(n)) == (Keys {
            pending: ks.take(n),
            ..k
        }),
        asks_nothing(k, keymap, registry, registers, ks.take(n)),
    decreases n,
{
    if n == 0 {
        assert(ks.take(0) =~= Seq::empty());
        assert(k =~= (Keys { pending: ks.take(0), ..k }));
    } else {
        lemma_inside_sequence(k, keymap, registry, registers, ks, end, n - 1);
        let before = ks.take(n - 1);
        let key = ks[n - 1];
        assert(bare(key));
        assert(ks.take(n) =~= before.push(key));
        assert(ks.take(n).drop_last() =~= before);
        assert(keymap.normal.at(canon(ks.take(n))) is Interior);
        if k.mode == Mode::Extend {
            assert(keymap.extend.at(canon(ks.take(n))) == Walk::NoMatch);
        }
        lemma_asks_nothing_push(k, keymap, registry, registers, before, key);
    }
}

/// The keys that lead to a command run it at the last of them, and not before. It gets the
/// count, or one where none was typed, and extends in extend mode. The count is used up.
pub proof fn law_sequence_runs_command(
    k: Keys,
    keymap: Keymap,
    registry: CommandRegistry,
    registers: RegisterSet,
    ks: Seq<KeyEvent>,
    name: Seq<char>,
)
    requires
        at_root(k),
        sequence_to(k, keymap, ks, Walk::Leaf(name)),
    ensures
        asks_nothing(k, keymap, registry, registers, ks.drop_last()),
        ({
            let s = after_keys(k, keymap, registry, registers, ks.drop_last()).pressed(
                keymap,
                registry,
                registers,
                ks.last(),
            );
            &&& s.act == Act::Execute(
                name,
                if k.count is Some {
                    k.count->0
                } else {
                    1
                },
                k.mode == Mode::Extend,
            )
            &&& s.stored is None
            &&& s.keys == (Keys { count: None, explicit_count: k.count is Some, ..k })
        }),
{
    let n = ks.len() - 1;
    lemma_inside_sequence(k, keymap, registry, registers, ks, Walk::Leaf(name), n);
    assert(ks.take(n) =~= ks.drop_last());
    assert(ks.take(n).push(ks.last()) =~= ks);
    assert(ks.take(ks.len() as int) =~= ks);
    assert(bare(ks[n]));
    let s = after_keys(k, keymap, registry, registers, ks.drop_last()).pressed(
        keymap,
        registry,
        registers,
        ks.last(),
    );
    assert(s.keys =~= (Keys { count: None, explicit_count: k.count is Some, ..k }));
}

/// The keys that lead to a command that takes a character run nothing. The character that is
/// typed next, with whatever modifiers, runs the command. It gets that character and the count
/// from before the keys, or one where none was typed, and extends in extend mode. Any other key
/// gives the waiting up. Either way the count is used up.
pub proof fn law_waiting_command_gets_count_and_char(
    k: Keys,
    keymap: Keymap,
    registry: CommandRegistry,
    registers: RegisterSet,
    ks: Seq<KeyEvent>,
    name: Seq<char>,
    flag: bool,
    key: KeyEvent,
)
    requires
        at_root(k),
        sequence_to(k, keymap, ks, Walk::WaitChar(name, flag)),
    ensures
        asks_nothing(k, keymap, registry, registers, ks),
        ({
            let s = after_keys(k, keymap, registry, registers, ks).pressed(
                keymap,
                registry,
                registers,
                key,
            );
            &&& s.stored is None
            &&& match key.code {
                KeyCode::Char(c) => {
                    &&& s.act == Act::Execute(
                        name,
                        if k.count is Some {
                            k.count->0
                        } else {
                            1
                        },
                        k.mode == Mode::Extend,
                    )
                    &&& s.keys == (Keys { count: None, pending_char: Some(c), ..k })
                },
                _ => s.act == Act::Nothing && s.keys == (Keys { count: None, ..k }),
            }
        }),
{
    let n = ks.len() - 1;
    lemma_inside_sequence(k, keymap, registry, registers, ks, Walk::WaitChar(name, flag), n);
    assert(ks.take(n) =~= ks.drop_last());
    assert(ks.take(n).push(ks.last()) =~= ks);
    assert(ks.take(ks.len() as int) =~= ks);
    assert(bare(ks[n]));
    lemma_asks_nothing_push(k, keymap, registry, registers, ks.drop_last(), ks.last());
    assert(ks.drop_last().push(ks.last()) =~= ks);
    let waiting = after_keys(k, keymap, registry, registers, ks);
    assert(waiting =~= (Keys { wait: Some(Waiting { cmd: name, ctrl_extend: false }), ..k }));
    let s = waiting.pressed(keymap, registry, registers, key);
    match key.code {
        KeyCode::Char(c) => {
            assert(s.keys =~= (Keys { count: None, pending_char: Some(c), ..k }));
        },
        _ => {
            assert(s.keys =~= (Keys { count: None, ..k }));
        },
    }
}

/// A number that is typed before the keys of a command is the count that the command runs with.
pub proof fn law_typed_count_reaches_command(
    k: Keys,
    keymap: Keymap,
    registry: CommandRegistry,
    registers: RegisterSet,
    n: nat,
    ks: Seq<KeyEvent>,
    name: Seq<char>,
)
    requires
        at_root(k),
        k.count is None,
        0 < n <= usize::MAX,
        sequence_to(Keys { count: Some(n as usize), ..k }, keymap, ks, Walk::Leaf(name)),
    ensures
        ({
            let typed = typing(decimal(n)) + ks.drop_last();
            let s = after_keys(k, keymap, registry, registers, typed).pressed(
                keymap,
                registry,
                registers,
                ks.last(),
            );
            &&& s.act == Act::Execute(name, n as usize, k.mode == Mode::Extend)
            &&& s.keys.count is None
        }),
{
    let counted = Keys { count: Some(n as usize), ..k };
    law_digits_are_the_count(k, keymap, registry, registers, n);
    lemma_after_keys_add(k, keymap, registry, registers, typing(decimal(n)), ks.drop_last());
    law_sequence_runs_command(counted, keymap, registry, registers, ks, name);
}

/// A number that is typed before the keys of a command that takes a character is the count
/// that the command runs with, once the character was typed.
pub proof fn law_typed_count_reaches_waiting_command(
    k: Keys,
    keymap: Keymap,
    registry: CommandRegistry,
    registers: RegisterSet,
    n: nat,
    ks: Seq<KeyEvent>,
    name: Seq<char>,
    flag: bool,
    c: char,
)
    requires
        at_root(k),
        k.count is None,
        0 < n <= usize::MAX,
        sequence_to(
            Keys { count: Some(n as usize), ..k },
            keymap,
            ks,
            Walk::WaitChar(name, flag),
        ),
    ensures
        ({
            let typed = typing(decimal(n)) + ks;
            let s = after_keys(k, keymap, registry, registers, typed).pressed(
                keymap,
                registry,
                registers,
                plain(c),
            );
            &&& s.act == Act::Execute(name, n as usize, k.mode == Mode::Extend)
            &&& s.keys.pending_char == Some(c)
            &&& s.keys.count is None
            &&& s.keys.wait is None
        }),
{
    let counted = Keys { count: Some(n as usize), ..k };
    law_digits_are_the_count(k, keymap, registry, registers, n);
    lemma_after_keys_add(k, keymap, registry, registers, typing(decimal(n)), ks);
    law_waiting_command_gets_count_and_char(
        counted,
        keymap,
        registry,
        registers,
        ks,
        name,
        flag,
        plain(c),
    );
}

/// In extend mode, what the extend trie binds to a key runs with the count, and does not extend:
/// it is the command to run in place of an extending one.
pub proof fn law_extend_trie_comes_first(
    k: Keys,
    keymap: Keymap,
    registry: CommandRegistry,
    registers: RegisterSet,
    key: KeyEvent,
    name: Seq<char>,
)
    requires
        at_root(k),
        k.mode == Mode::Extend,
        begins_sequence(key, k.count is Some),
        keymap.extend.at(canon(seq![key])) == Walk::Leaf(name),
    ensures
        ({
            let s = k.pressed(keymap, registry, registers, key);
            &&& s.act == Act::Execute(
                name,
                if k.count is Some {
                    k.count->0
                } else {
                    1
                },
                false,
            )
            &&& s.keys.mode == Mode::Extend
            &&& s.keys.count is None
            &&& s.keys.pending.len() == 0
        }),
{
    assert(k.pending.push(key) =~= seq![key]);
}

/// A key with control that nothing is bound to does what the bare key does, and extends, where
/// the terminal tells the two apart and the command can extend. The mode stays. Else nothing
/// runs; where the terminal does not tell them apart, nothing changes at all.
pub proof fn law_control_extends_once(
    k: Keys,
    keymap: Keymap,
    registry: CommandRegistry,
    registers: RegisterSet,
    c: char,
    name: Seq<char>,
)
    requires
        at_root(k),
        ({
            let control = KeyModifiers { control: true, ..no_modifiers() };
            keymap.normal.at(canon(seq![key_of(KeyCode::Char(c), control)])) == Walk::NoMatch
        }),
        keymap.normal.at(canon(seq![plain(c)])) == Walk::Leaf(name),
    ensures
        ({
            let control = KeyModifiers { control: true, ..no_modifiers() };
            let s = k.pressed(keymap, registry, registers, key_of(KeyCode::Char(c), control));
            let command = registry.mappable(name);
            if !k.kitty {
                s == Step { keys: k, act: Act::Nothing, stored: None }
            } else if command is Some && command->0.extendable() {
                &&& s.act == Act::Execute(
                    name,
                    if k.count is Some {
                        k.count->0
                    } else {
                        1
                    },
                    true,
                )
                &&& s.keys == (Keys { count: None, explicit_count: k.count is Some, ..k })
            } else {
                s.act == Act::Nothing && s.keys == (Keys { count: None, ..k })
            }
        }),
{
    let control = KeyModifiers { control: true, ..no_modifiers() };
    let key = key_of(KeyCode::Char(c), control);
    assert(control != no_modifiers() && control != only_shift());
    assert(unshifted(key) == key);
    let s = k.pressed(keymap, registry, registers, key);
    let command = registry.mappable(name);
    if k.kitty && command is Some && command->0.extendable() {
        assert(s.keys =~= (Keys { count: None, explicit_count: k.count is Some, ..k }));
    } else if k.kitty {
        assert(s.keys =~= (Keys { count: None, ..k }));
    }
}

/// A capital letter means the same with the shift key as without it.
pub proof fn law_shift_is_in_the_letter(
    k: Keys,
    keymap: Keymap,
    registry: CommandRegistry,
    registers: RegisterSet,
    c: char,
)
    requires
        alphabetic(c),
    ensures
        ({
            let shift = KeyModifiers { shift: true, ..no_modifiers() };
            k.pressed(keymap, registry, registers, key_of(KeyCode::Char(c), shift)) == k.pressed(
                keymap,
                registry,
                registers,
                plain(c),
            )
        }),
{
}

/// A character that leads nowhere is handed on, and ends the sequence and the count.
pub proof fn law_unbound_starts_over(
    k: Keys,
    keymap: Keymap,
    registry: CommandRegistry,
    registers: RegisterSet,
    ks: Seq<KeyEvent>,
    c: char,
)
    requires
        at_root(k),
        sequence_to(k, keymap, ks, Walk::NoMatch),
        ks.last().code == KeyCode::Char(c),
    ensures
        ({
            let s = after_keys(k, keymap, registry, registers, ks.drop_last()).pressed(
                keymap,
                registry,
                registers,
                ks.last(),
            );
            &&& s.act == Act::Unbound(c)
            &&& s.keys == (Keys { count: None, ..k })
        }),
{
    let n = ks.len() - 1;
    lemma_inside_sequence(k, keymap, registry, registers, ks, Walk::NoMatch, n);
    assert(ks.take(n) =~= ks.drop_last());
    assert(ks.take(n).push(ks.last()) =~= ks);
    assert(ks.take(ks.len() as int) =~= ks);
    assert(bare(ks[n]));
    let s = after_keys(k, keymap, registry, registers, ks.drop_last()).pressed(
        keymap,
        registry,
        registers,
        ks.last(),
    );
    assert(s.keys =~= (Keys { count: None, ..k }));
}

/// The key state after keys were handled while a macro is recorded: each of them is taken down.
pub open spec fn taken_down(k: Keys, ks: Seq<KeyEvent>) -> Keys
    decreases ks.len(),
{
    if ks.len() == 0 {
        k
    } else {
        taken_down(k, ks.drop_last()).recorded(ks.last())
    }
}

/// A recording that is begun, by `Q` and the key of a register, takes down the keys that follow,
/// in order and none else. `QQ` records to the register `q`. The macro keys leave no count.
pub proof fn law_recording_takes_down_what_follows(
    k: Keys,
    keymap: Keymap,
    registry: CommandRegistry,
    registers: RegisterSet,
    c: char,
    ks: Seq<KeyEvent>,
)
    requires
        at_root(k),
        k.recording is None,
        !k.skip_record,
        !k.replaying,
        c == 'Q' || c == 'q' || '0' <= c <= '9',
    ensures
        ({
            let first = k.pressed(keymap, registry, registers, plain('Q'));
            let second = first.keys.recorded(plain('Q')).pressed(
                keymap,
                registry,
                registers,
                plain(c),
            );
            let begun = second.keys.recorded(plain(c));
            &&& first.act == Act::Nothing && second.act == Act::Nothing
            &&& first.stored is None && second.stored is None
            &&& begun.count is None
            &&& begun.macro_pending is None
            &&& taken_down(begun, ks).recording == Some(
                Recording {
                    register: if c == 'Q' {
                        'q'
                    } else {
                        c
                    },
                    keys: ks,
                },
            )
        }),
    decreases ks.len(),
{
    if ks.len() == 0 {
        assert(ks =~= Seq::<KeyEvent>::empty());
    } else {
        law_recording_takes_down_what_follows(
            k,
            keymap,
            registry,
            registers,
            c,
            ks.drop_last(),
        );
        assert(ks =~= ks.drop_last().push(ks.last()));
        let first = k.pressed(keymap, registry, registers, plain('Q'));
        let second = first.keys.recorded(plain('Q')).pressed(
            keymap,
            registry,
            registers,
            plain(c),
        );
        lemma_taken_down_skips_none(second.keys.recorded(plain(c)), ks.drop_last());
    }
}

proof fn lemma_taken_down_skips_none(k: Keys, ks: Seq<KeyEvent>)
    requires
        !k.skip_record,
    ensures
        !taken_down(k, ks).skip_record,
    decreases ks.len(),
{
    if ks.len() > 0 {
        lemma_taken_down_skips_none(k, ks.drop_last());
    }
}

proof fn lemma_times(ks: Seq<KeyEvent>, n: nat)
    ensures
        times(ks, n).len() == n * ks.len(),
        forall|i: int, j: int|
            #![trigger times(ks, n)[i * ks.len() + j]]
            0 <= i < n && 0 <= j < ks.len() ==> times(ks, n)[i * ks.len() + j] == ks[j],
    decreases n,
{
    if n > 0 {
        let m = (n - 1) as nat;
        lemma_times(ks, m);
        assert(n * ks.len() == m * ks.len() + ks.len()) by (nonlinear_arith)
            requires
                n == m + 1,
        ;
        assert forall|i: int, j: int|
            #![trigger times(ks, n)[i * ks.len() + j]]
            0 <= i < n && 0 <= j < ks.len() implies times(ks, n)[i * ks.len() + j] == ks[j] by {
            if i < m {
                assert(i * ks.len() + j < m * ks.len()) by (nonlinear_arith)
                    requires
                        0 <= i < m,
                        0 <= j < ks.len(),
                ;
                assert(0 <= i * ks.len() + j) by (nonlinear_arith)
                    requires
                        0 <= i,
                        0 <= j < ks.len(),
                ;
                assert(times(ks, m)[i * ks.len() + j] == ks[j]);
            } else {
                assert(i == m);
                assert(i * ks.len() + j - m * ks.len() == j);
            }
        }
    } else {
        assert(0 * ks.len() == 0) by (nonlinear_arith);
    }
}

/// Asking for a macro with `q` and the key of a register puts its keys behind those that are
/// queued, as many times over as the count says, or once. An empty register queues nothing.
pub proof fn law_macro_replays_count_times(
    k: Keys,
    keymap: Keymap,
    registry: CommandRegistry,
    registers: RegisterSet,
    c: char,
    ks: Seq<KeyEvent>,
)
    requires
        at_root(k),
        k.recording is None,
        !k.replaying,
        c == 'q' || '0' <= c <= '9',
    ensures
        ({
            let asked = k.pressed(keymap, registry, registers, plain('q'));
            let named = asked.keys.pressed(keymap, registry, registers, plain(c));
            let n: nat = if k.count is Some {
                k.count->0 as nat
            } else {
                1
            };
            let q = named.keys.queue;
            &&& asked.act == Act::Nothing && named.act == Act::Nothing
            &&& named.keys == (Keys { count: None, queue: q, ..k })
            &&& registers.keys(c) is None ==> q == k.queue
            &&& registers.keys(c) == Some(ks) ==> {
                &&& q.len() == k.queue.len() + n * ks.len()
                &&& forall|i: int| 0 <= i < k.queue.len() ==> #[trigger] q[i] == k.queue[i]
                &&& forall|i: int, j: int|
                    0 <= i < n && 0 <= j < ks.len() ==> #[trigger] q[k.queue.len() + (i * ks.len()
                        + j)] == ks[j]
            }
        }),
{
    let asked = k.pressed(keymap, registry, registers, plain('q'));
    let named = asked.keys.pressed(keymap, registry, registers, plain(c));
    let n: nat = if k.count is Some {
        k.count->0 as nat
    } else {
        1
    };
    let q = named.keys.queue;
    assert(named.keys =~= (Keys { count: None, queue: q, ..k }));
    if registers.keys(c) == Some(ks) {
        lemma_times(ks, n);
        assert(q == k.queue + times(ks, n));
        assert forall|i: int, j: int| 0 <= i < n && 0 <= j < ks.len() implies #[trigger] q[
            k.queue.len() + (i * ks.len() + j)] == ks[j] by {
            let at = i * ks.len() + j;
            assert(times(ks, n)[i * ks.len() + j] == ks[j]);
            assert(0 <= at < n * ks.len()) by (nonlinear_arith)
                requires
                    0 <= i < n,
                    0 <= j < ks.len(),
                    at == i * ks.len() + j,
            ;
        }
    }
}

/// Hooks are told the modes by these names, each by its own.
pub proof fn law_names_of_modes(m: Mode)
    ensures
        spec_mode_name(m) == "normal"@ <==> m == Mode::Normal,
        spec_mode_name(m) == "insert"@ <==> m == Mode::Insert,
        spec_mode_name(m) == "extend"@ <==> m == Mode::Extend,
        spec_mode_name(m) == "command"@ <==> m == Mode::Command,
        spec_mode_name(m) == "search"@ <==> m == Mode::Search,
        spec_mode_name(m) == "select"@ <==> m == Mode::Select,
{
    reveal_strlit("normal");
    reveal_strlit("insert");
    reveal_strlit("extend");
    reveal_strlit("command");
    reveal_strlit("search");
    reveal_strlit("select");
    assert("normal"@[0] == 'n' && "insert"@[0] == 'i' && "extend"@[0] == 'e');
    assert("command"@[0] == 'c' && "search"@[0] == 's' && "select"@[0] == 's');
    assert("search"@[2] == 'a' && "select"@[2] == 'l');
}

} // verus!
