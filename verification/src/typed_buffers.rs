//! Typed commands on buffers: switching, opening, reloading and closing them.

use crate::buffer::{Buffer, SCRATCH_BUFFER_NAME};
use crate::buffer_store::{first_at, next_in, prev_in, BufferId, BufferStore};
use crate::message_log::Severity;
use crate::messages::{fails, CommandError, Messages};
use crate::ops::{place_kept, turned, Workspace};
use crate::pane_state::Jump;
use crate::paths::Separators;
use crate::strings::{
    chars_of, concat2, concat3, decimal, decimal_string, join_strings, joined_with,
    law_numerals_are_read_back, number_of, parse_usize, starts_with, str_eq,
};
use vstd::prelude::*;
use vstd::string::*;

verus! {

/// The buffer is called `arg`, or something that begins with it.
pub open spec fn called(b: Buffer, arg: Seq<char>, prefix: bool) -> bool {
    if prefix {
        arg.is_prefix_of(b.spec_display_name())
    } else {
        b.spec_display_name() == arg
    }
}

/// Those of `ids` whose buffers are called `arg`, in order.
pub open spec fn all_called(
    ids: Seq<u64>,
    buffers: Map<u64, Buffer>,
    arg: Seq<char>,
    prefix: bool,
) -> Seq<u64>
    decreases ids.len(),
{
    if ids.len() == 0 {
        Seq::empty()
    } else {
        let before = all_called(ids.drop_last(), buffers, arg, prefix);
        if called(buffers[ids.last()], arg, prefix) {
            before.push(ids.last())
        } else {
            before
        }
    }
}

/// What tells buffers of one name apart: their paths.
pub open spec fn label_of(b: Buffer) -> Seq<char> {
    match b.spec_path() {
        Some(p) => p@,
        None => SCRATCH_BUFFER_NAME@,
    }
}

/// The labels of buffers, with commas between them.
pub open spec fn labels_of(ids: Seq<u64>, buffers: Map<u64, Buffer>) -> Seq<char> {
    joined_with(ids.map_values(|k: u64| label_of(buffers[k])), ", "@)
}

/// The buffer that an argument means, or what is wrong with it. A number is a place in
/// the list of buffers, counted from one; an absolute path is that of an open buffer,
/// which is `by_path`; anything else is the name of one buffer, or else the beginning of
/// the name of one.
pub open spec fn resolved(
    store: BufferStore,
    by_path: Option<BufferId>,
    arg: Seq<char>,
    separators: Separators,
) -> Result<u64, Seq<char>> {
    let ids = store.opened();
    match number_of(arg) {
        Some(n) if n <= usize::MAX => if 1 <= n <= ids.len() {
            Ok(ids[n - 1])
        } else {
            Err("no buffer at index "@ + decimal(n))
        },
        _ => if separators.absolute(arg) {
            match by_path {
                Some(id) => Ok(id.0),
                None => Err(arg + ": not an open buffer"@),
            }
        } else {
            let exact = all_called(ids, store@, arg, false);
            if exact.len() == 1 {
                Ok(exact[0])
            } else if exact.len() > 1 {
                Err("ambiguous buffer name '"@ + arg + "': "@ + labels_of(exact, store@))
            } else {
                let some = all_called(ids, store@, arg, true);
                if some.len() == 0 {
                    Err("no buffer matching '"@ + arg + "'"@)
                } else if some.len() == 1 {
                    Ok(some[0])
                } else {
                    Err("ambiguous prefix '"@ + arg + "': "@ + labels_of(some, store@))
                }
            }
        },
    }
}

/// A result as the value it stands for.
pub open spec fn means(r: Result<BufferId, CommandError>, v: Result<u64, Seq<char>>) -> bool {
    match v {
        Ok(k) => r is Ok && r->Ok_0.0 == k,
        Err(e) => fails(r, e),
    }
}

proof fn lemma_called_open(ids: Seq<u64>, buffers: Map<u64, Buffer>, arg: Seq<char>, prefix: bool)
    requires
        forall|i: int| 0 <= i < ids.len() ==> buffers.contains_key(#[trigger] ids[i]),
    ensures
        forall|i: int|
            0 <= i < all_called(ids, buffers, arg, prefix).len() ==> buffers.contains_key(
                #[trigger] all_called(ids, buffers, arg, prefix)[i],
            ),
    decreases ids.len(),
{
    if ids.len() > 0 {
        let r = ids.drop_last();
        assert forall|i: int| 0 <= i < r.len() implies buffers.contains_key(#[trigger] r[i]) by {
            assert(r[i] == ids[i]);
        }
        lemma_called_open(r, buffers, arg, prefix);
        assert(buffers.contains_key(ids[ids.len() - 1]));
        let a = all_called(ids, buffers, arg, prefix);
        let b = all_called(r, buffers, arg, prefix);
        assert forall|i: int| 0 <= i < a.len() implies buffers.contains_key(#[trigger] a[i]) by {
            if i < b.len() {
                assert(a[i] == b[i]);
            }
        }
    }
}

fn find_called(store: &BufferStore, arg: &str, prefix: bool) -> (r: Vec<u64>)
    ensures
        r@ == all_called(store.opened(), store@, arg@, prefix),
        forall|i: int| 0 <= i < r@.len() ==> store@.contains_key(#[trigger] r@[i]),
{
    let ids = store.ids();
    let n = ids.len();
    let mut r: Vec<u64> = Vec::new();
    let mut i: usize = 0;
    let ghost all = store.opened();
    assert(all.take(0) =~= Seq::empty());
    while i < n
        invariant
            i <= n == ids@.len() == all.len(),
            all == store.opened(),
            all == ids@.map_values(|b: BufferId| b.0),
            forall|j: int| 0 <= j < ids@.len() ==> store@.contains_key((#[trigger] ids@[j]).0),
            r@ == all_called(all.take(i as int), store@, arg@, prefix),
        decreases n - i,
    {
        let id = ids[i];
        assert(all.take(i + 1).drop_last() =~= all.take(i as int));
        assert(all[i as int] == id.0);
        let name = store.get(id).display_name();
        let hit = if prefix {
            starts_with(name.as_str(), arg)
        } else {
            str_eq(name.as_str(), arg)
        };
        if hit {
            r.push(id.0);
        }
        i = i + 1;
    }
    assert(all.take(n as int) =~= all);
    proof {
        assert forall|j: int| 0 <= j < all.len() implies store@.contains_key(#[trigger] all[j]) by {
            assert(all[j] == ids@[j].0);
        }
        lemma_called_open(all, store@, arg@, prefix);
    }
    r
}

fn join_labels(store: &BufferStore, ids: &Vec<u64>) -> (r: String)
    requires
        forall|i: int| 0 <= i < ids@.len() ==> store@.contains_key(#[trigger] ids@[i]),
    ensures
        r@ == labels_of(ids@, store@),
{
    let n = ids.len();
    let mut labels: Vec<String> = Vec::new();
    let mut i: usize = 0;
    let ghost goal = ids@.map_values(|k: u64| label_of(store@[k]));
    while i < n
        invariant
            i <= n == ids@.len(),
            goal == ids@.map_values(|k: u64| label_of(store@[k])),
            forall|i: int| 0 <= i < ids@.len() ==> store@.contains_key(#[trigger] ids@[i]),
            labels@.map_values(|s: String| s@) == goal.take(i as int),
        decreases n - i,
    {
        let b = store.get(BufferId(ids[i]));
        let label = match b.path() {
            Some(p) => p.text.clone(),
            None => SCRATCH_BUFFER_NAME.to_owned(),
        };
        let ghost before = labels@.map_values(|s: String| s@);
        let ghost one = label@;
        labels.push(label);
        i = i + 1;
        assert(labels@.map_values(|s: String| s@) =~= before.push(one));
        assert(labels@.map_values(|s: String| s@) =~= goal.take(i as int));
    }
    assert(goal.take(n as int) =~= goal);
    join_strings(&labels, ", ")
}

/// Finds the open buffer of a file, by its path with links resolved, or else by its
/// absolute path: that also finds a buffer whose file is gone.
pub fn find_buffer_by_path_arg(
    store: &BufferStore,
    canonical: Option<&str>,
    absolute: Option<&str>,
) -> (r: Option<BufferId>)
    ensures
        match r {
            Some(id) => if canonical is Some && !nothing_at(store@, canonical->0@) {
                found_at(*store, canonical->0@, id.0)
            } else {
                absolute is Some && found_at(*store, absolute->0@, id.0)
            },
            None => (canonical is Some ==> nothing_at(store@, canonical->0@)) && (absolute is Some
                ==> nothing_at(store@, absolute->0@)),
        },
{
    if let Some(c) = canonical {
        if let Some(id) = store.find_by_path(c) {
            return Some(id);
        }
    }
    match absolute {
        Some(a) => store.find_by_path(a),
        None => None,
    }
}

/// The buffer `k` is the one opened first of those that have this path.
pub open spec fn found_at(store: BufferStore, path: Seq<char>, k: u64) -> bool {
    &&& store@.contains_key(k)
    &&& store@[k].path is Some
    &&& store@[k].path->0@ == path
    &&& first_at(store.opened(), store@, path, k)
}

/// No buffer has this path.
pub open spec fn nothing_at(buffers: Map<u64, Buffer>, path: Seq<char>) -> bool {
    forall|k: u64| #[trigger]
        buffers.contains_key(k) ==> !(buffers[k].path is Some && buffers[k].path->0@ == path)
}

/// Finds the buffer that an argument means; see [`resolved`].
pub fn resolve_buffer_arg(
    store: &BufferStore,
    by_path: Option<BufferId>,
    arg: &str,
    separators: Separators,
) -> (r: Result<BufferId, CommandError>)
    requires
        by_path matches Some(id) ==> store@.contains_key(id.0),
    ensures
        means(r, resolved(*store, by_path, arg@, separators)),
        r matches Ok(id) ==> store@.contains_key(id.0),
{
    if let Some(n) = parse_usize(arg) {
        let ids = store.ids();
        assert(store.opened() == ids@.map_values(|b: BufferId| b.0));
        if n >= 1 && n <= ids.len() {
            assert(store.opened()[n - 1] == ids@[n - 1].0);
            return Ok(ids[n - 1]);
        }
        return Err(
            CommandError::new(
                concat2("no buffer at index ", decimal_string(n).as_str()).as_str(),
            ),
        );
    }
    if separators.is_absolute(arg) {
        return match by_path {
            Some(id) => Ok(id),
            None => Err(CommandError::new(concat2(arg, ": not an open buffer").as_str())),
        };
    }
    let exact = find_called(store, arg, false);
    if exact.len() == 1 {
        return Ok(BufferId(exact[0]));
    }
    if exact.len() > 1 {
        let labels = join_labels(store, &exact);
        let head = concat3("ambiguous buffer name '", arg, "': ");
        return Err(CommandError::new(concat2(head.as_str(), labels.as_str()).as_str()));
    }
    let some = find_called(store, arg, true);
    if some.len() == 0 {
        return Err(CommandError::new(concat3("no buffer matching '", arg, "'").as_str()));
    }
    if some.len() == 1 {
        return Ok(BufferId(some[0]));
    }
    let labels = join_labels(store, &some);
    let head = concat3("ambiguous prefix '", arg, "': ");
    Err(CommandError::new(concat2(head.as_str(), labels.as_str()).as_str()))
}

impl Workspace {
    /// After the focused pane turned to `b`, and kept the place it came from, unless it
    /// already showed `b`.
    pub open spec fn shows_now(&self, after: Workspace, b: u64) -> bool {
        if b == self.shown() {
            after == *self
        } else {
            &&& after.shown() == b
            &&& turned(*self, after, self.focused.0, b)
            &&& place_kept(*self, after)
        }
    }

    /// Turns the focused pane to `target`, unless it shows it already.
    pub fn show_buffer(&mut self, target: BufferId)
        requires
            old(self).wf(),
            old(self).buffers@.contains_key(target.0),
        ensures
            final(self).wf(),
            old(self).shows_now(*final(self), target.0),
    {
        let current = self.focused_buffer_id();
        if target.0 != current.0 {
            self.switch_to_buffer_with_jump(target);
        }
    }

    /// Switches to the buffer that the argument means. `by_path` is the open buffer whose
    /// path it is, if it is one. The buffer comes back, for [`warn_if_file_gone`].
    pub fn typed_buffer(
        &mut self,
        arg: Option<&str>,
        by_path: Option<BufferId>,
        separators: Separators,
    ) -> (r: Result<BufferId, CommandError>)
        requires
            old(self).wf(),
            by_path matches Some(id) ==> old(self).buffers@.contains_key(id.0),
        ensures
            final(self).wf(),
            match arg {
                Some(a) => {
                    let v = resolved(old(self).buffers, by_path, a@, separators);
                    &&& means(r, v)
                    &&& match v {
                        Ok(k) => old(self).shows_now(*final(self), k),
                        Err(_) => *final(self) == *old(self),
                    }
                },
                None => fails(r, "usage: :b <name|#|index>"@) && *final(self) == *old(self),
            },
    {
        match arg {
            Some(a) => {
                let bid = resolve_buffer_arg(&self.buffers, by_path, a, separators)?;
                self.show_buffer(bid);
                Ok(bid)
            },
            None => Err(CommandError::new("usage: :b <name|#|index>")),
        }
    }

    /// Switches to the buffer opened after this one.
    pub fn typed_bnext(&mut self)
        requires
            old(self).wf(),
        ensures
            final(self).wf(),
            old(self).shows_now(
                *final(self),
                next_in(old(self).buffers.opened(), old(self).shown()),
            ),
    {
        let current = self.focused_buffer_id();
        let target = self.buffers.next(current);
        self.buffers.check_orders();
        proof {
            assert(self.pane_ok(self.focused.0));
            crate::buffer_store::lemma_next_prev_in(self.buffers.opened(), current.0);
        }
        self.show_buffer(target);
    }

    /// Switches to the buffer opened before this one.
    pub fn typed_bprev(&mut self)
        requires
            old(self).wf(),
        ensures
            final(self).wf(),
            old(self).shows_now(
                *final(self),
                prev_in(old(self).buffers.opened(), old(self).shown()),
            ),
    {
        let current = self.focused_buffer_id();
        let target = self.buffers.prev(current);
        self.buffers.check_orders();
        proof {
            assert(self.pane_ok(self.focused.0));
            crate::buffer_store::lemma_next_prev_in(self.buffers.opened(), current.0);
        }
        self.show_buffer(target);
    }
}

/// Warns where the file of a buffer is gone.
pub fn warn_if_file_gone(buf: &Buffer, messages: &mut Messages, gone: bool)
    ensures
        final(messages)@ == (if gone && buf.spec_path() is Some {
            old(messages)@.reported(
                Severity::Warning,
                buf.spec_path()->0@ + ": file no longer exists on disk"@,
            )
        } else {
            old(messages)@
        }),
{
    if gone {
        match buf.path() {
            Some(p) => messages.report(
                Severity::Warning,
                concat2(p.as_str(), ": file no longer exists on disk"),
            ),
            None => {},
        }
    }
}

/// A number is a place in the list of buffers, counted from one.
pub proof fn law_number_is_a_place(
    store: BufferStore,
    by_path: Option<BufferId>,
    n: nat,
    s: Separators,
)
    requires
        n <= usize::MAX,
    ensures
        1 <= n <= store.opened().len() ==> resolved(store, by_path, decimal(n), s) == Ok::<
            u64,
            Seq<char>,
        >(store.opened()[n - 1]),
        n == 0 || n > store.opened().len() ==> resolved(store, by_path, decimal(n), s) == Err::<
            u64,
            Seq<char>,
        >("no buffer at index "@ + decimal(n)),
{
    law_numerals_are_read_back(n);
}

/// A name means the only buffer that has it, however many names it is the beginning of. One
/// that two buffers have means neither.
pub proof fn law_name_means_its_buffer(
    store: BufferStore,
    by_path: Option<BufferId>,
    arg: Seq<char>,
    s: Separators,
    i: int,
    j: int,
)
    requires
        number_of(arg) is None,
        !s.absolute(arg),
        0 <= i < store.opened().len(),
        store@[store.opened()[i]].spec_display_name() == arg,
    ensures
        (forall|k: int|
            0 <= k < store.opened().len() && k != i ==> store@[#[trigger] store.opened()[k]].spec_display_name()
                != arg) ==> resolved(store, by_path, arg, s) == Ok::<u64, Seq<char>>(
            store.opened()[i],
        ),
        0 <= j < store.opened().len() && j != i && store@[store.opened()[j]].spec_display_name()
            == arg ==> resolved(store, by_path, arg, s) is Err,
{
    let ids = store.opened();
    if forall|k: int|
        0 <= k < ids.len() && k != i ==> store@[#[trigger] ids[k]].spec_display_name() != arg {
        assert forall|k: int| 0 <= k < ids.len() && k != i implies !called(
            store@[#[trigger] ids[k]],
            arg,
            false,
        ) by {
            assert(store@[ids[k]].spec_display_name() != arg);
        }
        lemma_called_one(ids, store@, arg, false, i);
    }
    if 0 <= j < ids.len() && j != i && store@[ids[j]].spec_display_name() == arg {
        lemma_called_two(ids, store@, arg, false, i, j);
    }
}

/// What is the beginning of one name, and no name itself, means the buffer of that name. What is
/// the beginning of two means neither, and what is the beginning of none means nothing.
pub proof fn law_beginning_of_a_name(
    store: BufferStore,
    by_path: Option<BufferId>,
    arg: Seq<char>,
    s: Separators,
    i: int,
    j: int,
)
    requires
        number_of(arg) is None,
        !s.absolute(arg),
        forall|k: int|
            0 <= k < store.opened().len() ==> store@[#[trigger] store.opened()[k]].spec_display_name()
                != arg,
    ensures
        0 <= i < store.opened().len() && arg.is_prefix_of(
            store@[store.opened()[i]].spec_display_name(),
        ) && (forall|k: int|
            0 <= k < store.opened().len() && k != i ==> !arg.is_prefix_of(
                store@[#[trigger] store.opened()[k]].spec_display_name(),
            )) ==> resolved(store, by_path, arg, s) == Ok::<u64, Seq<char>>(store.opened()[i]),
        0 <= i < store.opened().len() && 0 <= j < store.opened().len() && i != j
            && arg.is_prefix_of(store@[store.opened()[i]].spec_display_name()) && arg.is_prefix_of(
            store@[store.opened()[j]].spec_display_name(),
        ) ==> resolved(store, by_path, arg, s) is Err,
        (forall|k: int|
            0 <= k < store.opened().len() ==> !arg.is_prefix_of(
                store@[#[trigger] store.opened()[k]].spec_display_name(),
            )) ==> resolved(store, by_path, arg, s) == Err::<u64, Seq<char>>(
            "no buffer matching '"@ + arg + "'"@,
        ),
{
    let ids = store.opened();
    assert forall|k: int| 0 <= k < ids.len() implies !called(
        store@[#[trigger] ids[k]],
        arg,
        false,
    ) by {
        assert(store@[ids[k]].spec_display_name() != arg);
    }
    lemma_called_none(ids, store@, arg, false);
    if 0 <= i < ids.len() && arg.is_prefix_of(store@[ids[i]].spec_display_name()) {
        if forall|k: int|
            0 <= k < ids.len() && k != i ==> !arg.is_prefix_of(
                store@[#[trigger] ids[k]].spec_display_name(),
            ) {
            assert forall|k: int| 0 <= k < ids.len() && k != i implies !called(
                store@[#[trigger] ids[k]],
                arg,
                true,
            ) by {
                assert(!arg.is_prefix_of(store@[ids[k]].spec_display_name()));
            }
            lemma_called_one(ids, store@, arg, true, i);
        }
        if 0 <= j < ids.len() && i != j && arg.is_prefix_of(
            store@[ids[j]].spec_display_name(),
        ) {
            lemma_called_two(ids, store@, arg, true, i, j);
        }
    }
    if forall|k: int|
        0 <= k < ids.len() ==> !arg.is_prefix_of(store@[#[trigger] ids[k]].spec_display_name()) {
        assert forall|k: int| 0 <= k < ids.len() implies !called(
            store@[#[trigger] ids[k]],
            arg,
            true,
        ) by {
            assert(!arg.is_prefix_of(store@[ids[k]].spec_display_name()));
        }
        lemma_called_none(ids, store@, arg, true);
    }
}

/// An absolute path means the open buffer of that path.
pub proof fn law_absolute_path_means_its_buffer(
    store: BufferStore,
    id: BufferId,
    arg: Seq<char>,
    s: Separators,
)
    requires
        number_of(arg) is None,
        s.absolute(arg),
    ensures
        resolved(store, Some(id), arg, s) == Ok::<u64, Seq<char>>(id.0),
        resolved(store, None, arg, s) == Err::<u64, Seq<char>>(arg + ": not an open buffer"@),
{
}

proof fn lemma_called_none(ids: Seq<u64>, buffers: Map<u64, Buffer>, arg: Seq<char>, prefix: bool)
    requires
        forall|k: int| 0 <= k < ids.len() ==> !called(buffers[#[trigger] ids[k]], arg, prefix),
    ensures
        all_called(ids, buffers, arg, prefix).len() == 0,
    decreases ids.len(),
{
    if ids.len() > 0 {
        let r = ids.drop_last();
        assert(!called(buffers[ids[ids.len() - 1]], arg, prefix));
        assert forall|k: int| 0 <= k < r.len() implies !called(
            buffers[#[trigger] r[k]],
            arg,
            prefix,
        ) by {
            assert(r[k] == ids[k]);
        }
        lemma_called_none(r, buffers, arg, prefix);
    }
}

proof fn lemma_called_one(
    ids: Seq<u64>,
    buffers: Map<u64, Buffer>,
    arg: Seq<char>,
    prefix: bool,
    i: int,
)
    requires
        0 <= i < ids.len(),
        called(buffers[ids[i]], arg, prefix),
        forall|k: int|
            0 <= k < ids.len() && k != i ==> !called(buffers[#[trigger] ids[k]], arg, prefix),
    ensures
        all_called(ids, buffers, arg, prefix) == seq![ids[i]],
    decreases ids.len(),
{
    let r = ids.drop_last();
    assert forall|k: int| 0 <= k < r.len() && k != i implies !called(
        buffers[#[trigger] r[k]],
        arg,
        prefix,
    ) by {
        assert(r[k] == ids[k]);
    }
    if i == ids.len() - 1 {
        lemma_called_none(r, buffers, arg, prefix);
        assert(all_called(ids, buffers, arg, prefix) =~= seq![ids[i]]);
    } else {
        assert(!called(buffers[ids[ids.len() - 1]], arg, prefix));
        lemma_called_one(r, buffers, arg, prefix, i);
    }
}

proof fn lemma_called_some(
    ids: Seq<u64>,
    buffers: Map<u64, Buffer>,
    arg: Seq<char>,
    prefix: bool,
    i: int,
)
    requires
        0 <= i < ids.len(),
        called(buffers[ids[i]], arg, prefix),
    ensures
        all_called(ids, buffers, arg, prefix).len() >= 1,
    decreases ids.len(),
{
    if i < ids.len() - 1 {
        lemma_called_some(ids.drop_last(), buffers, arg, prefix, i);
    }
}

proof fn lemma_called_two(
    ids: Seq<u64>,
    buffers: Map<u64, Buffer>,
    arg: Seq<char>,
    prefix: bool,
    i: int,
    j: int,
)
    requires
        0 <= i < ids.len(),
        0 <= j < ids.len(),
        i != j,
        called(buffers[ids[i]], arg, prefix),
        called(buffers[ids[j]], arg, prefix),
    ensures
        all_called(ids, buffers, arg, prefix).len() >= 2,
    decreases ids.len(),
{
    let r = ids.drop_last();
    if i == ids.len() - 1 {
        lemma_called_some(r, buffers, arg, prefix, j);
    } else if j == ids.len() - 1 {
        lemma_called_some(r, buffers, arg, prefix, i);
    } else {
        lemma_called_two(r, buffers, arg, prefix, i, j);
    }
}

/// A buffer that is switched to is the one shown, and a step back in the jump list leads to where
/// the pane was. Switching to the buffer that is shown does nothing.
pub proof fn law_switched_buffer_is_shown(
    before: Workspace,
    after: Workspace,
    b: u64,
    current: Jump,
)
    requires
        before.shows_now(after, b),
        before.jumps@[before.focused.0]@.cursor <= before.jumps@[before.focused.0]@.entries.len(),
        before.jumps@[before.focused.0]@.capacity >= 1,
    ensures
        after.shown() == b,
        b == before.shown() ==> after == before,
        b != before.shown() ==> after.jumps@[before.focused.0]@.back(current).1 == Some(
            (before.here().selections@, before.shown()),
        ),
        b != before.shown() ==> after.buffers.used().last() == b,
        b != before.shown() ==> after.buffers@ == before.buffers@,
{
}

} // verus!
