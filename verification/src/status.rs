//! The footer status-message stack: a persistent base message plus transient
//! notices pushed on top of it and retracted by handle. What the footer label
//! shows is [`MessageStack::top`].

use vstd::prelude::*;

verus! {

/// How long a transient error notice stays in the status bar, in seconds.
pub const ERROR_NOTICE_SECS: u64 = 6;

/// Identity of one message stack, so a handle knows which stack issued it.
#[derive(Clone, Copy, PartialEq, Eq, Debug, Structural)]
pub struct StackId(u64);

impl StackId {
    /// The raw identity value.
    pub closed spec fn spec_raw(self) -> u64 {
        self.0
    }

    /// Wraps a raw identity value.
    pub fn from_raw(raw: u64) -> (id: StackId)
        ensures
            id.spec_raw() == raw,
    {
        StackId(raw)
    }

    /// The raw identity value.
    pub fn raw(self) -> (r: u64)
        ensures
            r == self.spec_raw(),
    {
        self.0
    }
}

/// A source of stack identities that never hands out the same one twice.
pub struct StackIds {
    next: u64,
}

impl StackIds {
    /// The identity the next call of [`next`](Self::next) hands out.
    pub closed spec fn upcoming(&self) -> u64 {
        self.next
    }

    /// A fresh source, starting at 1.
    pub fn new() -> (s: StackIds)
        ensures
            s.upcoming() == 1,
    {
        StackIds { next: 1 }
    }

    /// Hand out the next identity; each is larger than every earlier one.
    pub fn next(&mut self) -> (id: StackId)
        requires
            old(self).upcoming() < u64::MAX,
        ensures
            id.spec_raw() == old(self).upcoming(),
            final(self).upcoming() == old(self).upcoming() + 1,
    {
        let id = StackId(self.next);
        self.next = self.next + 1;
        id
    }
}

/// The base entry's sequence number within its stack; pushes start at 1.
pub const BASE_SEQ: u64 = 0;

/// A pushed notice's handle, returned by [`MessageStack::push`] and consumed by
/// [`MessageStack::pop`]. Carries the issuing stack's identity, so a handle
/// popped against another stack can be named rather than silently ignored.
#[derive(Clone, Copy, PartialEq, Eq, Debug, Structural)]
pub struct StatusCtx {
    pub stack: StackId,
    pub seq: u64,
}

/// What a [`MessageStack::pop`] actually did.
#[derive(Clone, Copy, PartialEq, Eq, Debug, Structural)]
pub enum PopOutcome {
    /// The entry was found in this stack and removed.
    Retracted,
    /// This stack issued the handle but holds no such entry: a notice popped
    /// twice. Harmless.
    AlreadyRetracted,
    /// The handle was issued by a different stack: the notice it was meant to
    /// retract is stranded there.
    WrongStack,
}

/// One entry: a handle and its message.
pub struct StatusEntry {
    ctx: StatusCtx,
    msg: String,
}

/// The model of one entry.
pub struct EntryModel {
    pub ctx: StatusCtx,
    pub msg: Seq<char>,
}

/// The models of a sequence of entries.
spec fn entry_views(s: Seq<StatusEntry>) -> Seq<EntryModel> {
    s.map_values(|e: StatusEntry| EntryModel { ctx: e.ctx, msg: e.msg@ })
}

/// The first index in `s` holding handle `ctx`, or -1.
pub open spec fn index_of(s: Seq<EntryModel>, ctx: StatusCtx) -> int
    decreases s.len(),
{
    if s.len() == 0 {
        -1
    } else if s[0].ctx == ctx {
        0
    } else {
        let r = index_of(s.drop_first(), ctx);
        if r < 0 {
            -1
        } else {
            r + 1
        }
    }
}

/// `s` without any entry holding handle `ctx`.
pub open spec fn without_ctx(s: Seq<EntryModel>, ctx: StatusCtx) -> Seq<EntryModel>
    decreases s.len(),
{
    if s.len() == 0 {
        s
    } else {
        let r = without_ctx(s.drop_last(), ctx);
        if s.last().ctx == ctx {
            r
        } else {
            r.push(s.last())
        }
    }
}

/// Whether some entry of `s` holds handle `ctx`.
pub open spec fn holds(s: Seq<EntryModel>, ctx: StatusCtx) -> bool {
    exists|i: int| 0 <= i < s.len() && #[trigger] s[i].ctx == ctx
}

/// The model of a message stack.
#[verifier::ext_equal]
pub struct StackModel {
    pub id: StackId,
    pub entries: Seq<EntryModel>,
    pub next_seq: nat,
}

impl StackModel {
    /// The base entry's handle.
    pub open spec fn base_ctx(self) -> StatusCtx {
        StatusCtx { stack: self.id, seq: BASE_SEQ }
    }

    /// Every entry belongs to this stack, carries a sequence number already
    /// handed out, and no two entries share one.
    pub open spec fn wf(self) -> bool {
        &&& 1 <= self.next_seq <= u64::MAX
        &&& forall|i: int|
            0 <= i < self.entries.len() ==> (#[trigger] self.entries[i]).ctx.stack == self.id
                && self.entries[i].ctx.seq < self.next_seq
        &&& forall|i: int, j: int|
            0 <= i < j < self.entries.len() ==> (#[trigger] self.entries[i]).ctx.seq
                != (#[trigger] self.entries[j]).ctx.seq
    }

    /// The message that should show: the topmost entry's, or nothing.
    pub open spec fn top(self) -> Seq<char> {
        if self.entries.len() > 0 {
            self.entries.last().msg
        } else {
            Seq::empty()
        }
    }

    /// Set the base message in place, or insert it beneath everything.
    pub open spec fn set_base(self, msg: Seq<char>) -> StackModel {
        let i = index_of(self.entries, self.base_ctx());
        let e = EntryModel { ctx: self.base_ctx(), msg };
        StackModel {
            entries: if i >= 0 {
                self.entries.update(i, e)
            } else {
                self.entries.insert(0, e)
            },
            ..self
        }
    }

    /// The handle the next push hands out.
    pub open spec fn next_ctx(self) -> StatusCtx {
        StatusCtx { stack: self.id, seq: self.next_seq as u64 }
    }

    /// Push a transient notice on top.
    pub open spec fn push(self, msg: Seq<char>) -> StackModel {
        StackModel {
            entries: self.entries.push(EntryModel { ctx: self.next_ctx(), msg }),
            next_seq: self.next_seq + 1,
            ..self
        }
    }

    /// Retract the notice with handle `ctx`.
    pub open spec fn pop(self, ctx: StatusCtx) -> (StackModel, PopOutcome) {
        if ctx.stack != self.id {
            (self, PopOutcome::WrongStack)
        } else if holds(self.entries, ctx) {
            (StackModel { entries: without_ctx(self.entries, ctx), ..self }, PopOutcome::Retracted)
        } else {
            (self, PopOutcome::AlreadyRetracted)
        }
    }
}

/// The display-free push/pop message-stack core.
pub struct MessageStack {
    id: StackId,
    entries: Vec<StatusEntry>,
    next_seq: u64,
}

impl View for MessageStack {
    type V = StackModel;

    closed spec fn view(&self) -> StackModel {
        StackModel { id: self.id, entries: entry_views(self.entries@), next_seq: self.next_seq as nat }
    }
}

proof fn lemma_entry_views(s: Seq<StatusEntry>)
    ensures
        entry_views(s).len() == s.len(),
        forall|i: int|
            0 <= i < s.len() ==> #[trigger] entry_views(s)[i] == (EntryModel {
                ctx: s[i].ctx,
                msg: s[i].msg@,
            }),
        forall|e: StatusEntry|
            #[trigger] entry_views(s.push(e)) == entry_views(s).push(
                EntryModel { ctx: e.ctx, msg: e.msg@ },
            ),
        forall|i: int, e: StatusEntry|
            0 <= i < s.len() ==> #[trigger] entry_views(s.update(i, e)) == entry_views(s).update(
                i,
                EntryModel { ctx: e.ctx, msg: e.msg@ },
            ),
        forall|e: StatusEntry|
            #[trigger] entry_views(s.insert(0, e)) == entry_views(s).insert(
                0,
                EntryModel { ctx: e.ctx, msg: e.msg@ },
            ),
{
    assert forall|e: StatusEntry|
        #[trigger] entry_views(s.push(e)) == entry_views(s).push(
            EntryModel { ctx: e.ctx, msg: e.msg@ },
        ) by {
        assert(entry_views(s.push(e)) =~= entry_views(s).push(
            EntryModel { ctx: e.ctx, msg: e.msg@ },
        ));
    }
    assert forall|i: int, e: StatusEntry|
        0 <= i < s.len() implies #[trigger] entry_views(s.update(i, e)) == entry_views(s).update(
        i,
        EntryModel { ctx: e.ctx, msg: e.msg@ },
    ) by {
        assert(entry_views(s.update(i, e)) =~= entry_views(s).update(
            i,
            EntryModel { ctx: e.ctx, msg: e.msg@ },
        ));
    }
    assert forall|e: StatusEntry|
        #[trigger] entry_views(s.insert(0, e)) == entry_views(s).insert(
            0,
            EntryModel { ctx: e.ctx, msg: e.msg@ },
        ) by {
        assert(entry_views(s.insert(0, e)) =~= entry_views(s).insert(
            0,
            EntryModel { ctx: e.ctx, msg: e.msg@ },
        ));
    }
}

/// `index_of` finds the first entry holding the handle, or reports none.
pub proof fn lemma_index_of(s: Seq<EntryModel>, ctx: StatusCtx)
    ensures
        -1 <= index_of(s, ctx) < s.len(),
        index_of(s, ctx) >= 0 ==> s[index_of(s, ctx)].ctx == ctx,
        index_of(s, ctx) >= 0 ==> forall|j: int| 0 <= j < index_of(s, ctx) ==> #[trigger] s[j].ctx != ctx,
        index_of(s, ctx) < 0 ==> forall|j: int| 0 <= j < s.len() ==> #[trigger] s[j].ctx != ctx,
    decreases s.len(),
{
    if s.len() > 0 && s[0].ctx != ctx {
        let d = s.drop_first();
        lemma_index_of(d, ctx);
        if index_of(s, ctx) >= 0 {
            assert forall|j: int| 0 <= j < index_of(s, ctx) implies #[trigger] s[j].ctx != ctx by {
                if j > 0 {
                    assert(s[j] == d[j - 1]);
                }
            }
        } else {
            assert forall|j: int| 0 <= j < s.len() implies #[trigger] s[j].ctx != ctx by {
                if j > 0 {
                    assert(s[j] == d[j - 1]);
                }
            }
        }
    }
}

/// Removing a handle no entry holds changes nothing.
pub proof fn lemma_without_absent(s: Seq<EntryModel>, ctx: StatusCtx)
    requires
        forall|i: int| 0 <= i < s.len() ==> #[trigger] s[i].ctx != ctx,
    ensures
        without_ctx(s, ctx) == s,
    decreases s.len(),
{
    if s.len() > 0 {
        lemma_without_absent(s.drop_last(), ctx);
        assert(s.drop_last().push(s.last()) =~= s);
    }
}

/// After removing a handle, no entry holds it.
pub proof fn lemma_without_removes(s: Seq<EntryModel>, ctx: StatusCtx)
    ensures
        forall|i: int| 0 <= i < without_ctx(s, ctx).len() ==> #[trigger] without_ctx(s, ctx)[i].ctx != ctx,
        without_ctx(s, ctx).len() <= s.len(),
    decreases s.len(),
{
    if s.len() > 0 {
        lemma_without_removes(s.drop_last(), ctx);
    }
}

impl MessageStack {
    /// The stack's well-formedness, in terms of its model.
    pub open spec fn wf(&self) -> bool {
        self@.wf()
    }

    /// An empty stack with identity `id`. Handed-out sequence numbers start at 1;
    /// 0 is the persistent base.
    pub fn new(id: StackId) -> (s: MessageStack)
        ensures
            s.wf(),
            s@.id == id,
            s@.entries.len() == 0,
            s@.next_seq == 1,
    {
        let s = MessageStack { id, entries: Vec::new(), next_seq: 1 };
        assert(s@.entries =~= Seq::<EntryModel>::empty());
        s
    }

    /// This stack's base-entry handle. Never handed out by [`push`](Self::push).
    pub fn base_ctx(&self) -> (c: StatusCtx)
        ensures
            c == self@.base_ctx(),
    {
        StatusCtx { stack: self.id, seq: BASE_SEQ }
    }

    /// The number of entries, the base included.
    pub fn entry_count(&self) -> (n: usize)
        ensures
            n == self@.entries.len(),
    {
        proof {
            lemma_entry_views(self.entries@);
        }
        self.entries.len()
    }

    /// Set the persistent base message, updating it in place if present (never
    /// stacking a second base) and otherwise inserting it beneath every notice.
    pub fn set_base(&mut self, msg: &str)
        requires
            old(self).wf(),
        ensures
            final(self).wf(),
            final(self)@ == old(self)@.set_base(msg@),
    {
        let base = self.base_ctx();
        proof {
            lemma_entry_views(self.entries@);
            lemma_index_of(self@.entries, base);
        }
        let n = self.entries.len();
        let mut i: usize = 0;
        while i < n
            invariant
                n == self.entries@.len(),
                i <= n,
                base == self@.base_ctx(),
                forall|j: int| 0 <= j < i ==> #[trigger] self.entries@[j].ctx != base,
            ensures
                i <= n,
                forall|j: int| 0 <= j < i ==> #[trigger] self.entries@[j].ctx != base,
                i < n ==> self.entries@[i as int].ctx == base,
            decreases n - i,
        {
            if self.entries[i].ctx == base {
                break;
            }
            i = i + 1;
        }
        let entry = StatusEntry { ctx: base, msg: String::from_str(msg) };
        if i < n && self.entries[i].ctx == base {
            proof {
                assert(self@.entries[i as int].ctx == base);
                assert(index_of(self@.entries, base) == i);
            }
            self.entries.set(i, entry);
        } else {
            proof {
                assert forall|j: int| 0 <= j < n implies #[trigger] self@.entries[j].ctx != base by {
                    assert(self@.entries[j].ctx == self.entries@[j].ctx);
                }
                assert(index_of(self@.entries, base) < 0);
            }
            self.entries.insert(0, entry);
        }
        proof {
            lemma_entry_views(old(self).entries@);
            let spec = old(self)@.set_base(msg@);
            assert(self@.entries =~= spec.entries);
            assert(self@ =~= spec);
            assert forall|a: int, b: int|
                0 <= a < b < self@.entries.len() implies (#[trigger] self@.entries[a]).ctx.seq
                != (#[trigger] self@.entries[b]).ctx.seq by {
                let old_e = old(self)@.entries;
                if index_of(old_e, base) < 0 {
                    if a == 0 {
                        assert(self@.entries[b] == old_e[b - 1]);
                    } else {
                        assert(self@.entries[a] == old_e[a - 1]);
                        assert(self@.entries[b] == old_e[b - 1]);
                    }
                } else {
                    let k = index_of(old_e, base);
                    if a == k {
                        assert(old_e[k].ctx.seq == 0);
                    } else if b == k {
                        assert(old_e[k].ctx.seq == 0);
                    }
                }
            }
        }
    }

    /// Push a transient notice; returns its handle for a later [`pop`](Self::pop).
    pub fn push(&mut self, msg: &str) -> (ctx: StatusCtx)
        requires
            old(self).wf(),
            old(self)@.next_seq < u64::MAX,
        ensures
            final(self).wf(),
            ctx == old(self)@.next_ctx(),
            final(self)@ == old(self)@.push(msg@),
    {
        proof {
            lemma_entry_views(self.entries@);
        }
        let ctx = StatusCtx { stack: self.id, seq: self.next_seq };
        self.next_seq = self.next_seq + 1;
        self.entries.push(StatusEntry { ctx, msg: String::from_str(msg) });
        proof {
            let spec = old(self)@.push(msg@);
            assert(self@.entries =~= spec.entries);
            assert(self@ =~= spec);
        }
        ctx
    }

    /// Retract a pushed notice, reporting what happened: a handle from another
    /// stack is named, not silently ignored.
    pub fn pop(&mut self, ctx: StatusCtx) -> (r: PopOutcome)
        requires
            old(self).wf(),
        ensures
            final(self).wf(),
            (final(self)@, r) == old(self)@.pop(ctx),
    {
        if ctx.stack != self.id {
            return PopOutcome::WrongStack;
        }
        proof {
            lemma_entry_views(self.entries@);
        }
        let ghost e = self@.entries;
        let n = self.entries.len();
        let mut kept: Vec<StatusEntry> = Vec::new();
        let mut i: usize = 0;
        while i < n
            invariant
                n == self.entries@.len(),
                e == entry_views(self.entries@),
                e.len() == n,
                i <= n,
                entry_views(kept@) == without_ctx(e.take(i as int), ctx),
            decreases n - i,
        {
            let ghost prev = kept@;
            proof {
                lemma_entry_views(kept@);
                assert(e.take(i + 1).drop_last() =~= e.take(i as int));
            }
            if self.entries[i].ctx != ctx {
                let copy = StatusEntry { ctx: self.entries[i].ctx, msg: self.entries[i].msg.clone() };
                kept.push(copy);
            }
            i = i + 1;
        }
        assert(e.take(n as int) =~= e);
        let removed = kept.len() != n;
        self.entries = kept;
        proof {
            lemma_without_removes(e, ctx);
            if holds(e, ctx) {
                let j = choose|j: int| 0 <= j < e.len() && #[trigger] e[j].ctx == ctx;
                lemma_without_len_drops(e, ctx, j);
            } else {
                assert forall|j: int| 0 <= j < e.len() implies #[trigger] e[j].ctx != ctx by {
                    if e[j].ctx == ctx {
                        assert(holds(e, ctx));
                    }
                }
                lemma_without_absent(e, ctx);
            }
            lemma_without_preserves(e, ctx, self.id, self.next_seq as nat);
        }
        if removed {
            PopOutcome::Retracted
        } else {
            PopOutcome::AlreadyRetracted
        }
    }

    /// The message that should currently show: the topmost entry's, or "".
    pub fn top(&self) -> (s: &str)
        ensures
            s@ == self@.top(),
    {
        proof {
            lemma_entry_views(self.entries@);
        }
        let n = self.entries.len();
        if n > 0 {
            self.entries[n - 1].msg.as_str()
        } else {
            proof {
                reveal_strlit("");
            }
            ""
        }
    }
}

/// Removing a handle some entry holds shortens the sequence.
pub proof fn lemma_without_len_drops(s: Seq<EntryModel>, ctx: StatusCtx, j: int)
    requires
        0 <= j < s.len(),
        s[j].ctx == ctx,
    ensures
        without_ctx(s, ctx).len() < s.len(),
    decreases s.len(),
{
    lemma_without_removes(s.drop_last(), ctx);
    if j < s.len() - 1 {
        lemma_without_len_drops(s.drop_last(), ctx, j);
    }
}

/// Entries all belong to `id` and carry sequence numbers below `next`.
pub open spec fn entries_ok(s: Seq<EntryModel>, id: StackId, next: nat) -> bool {
    forall|i: int| 0 <= i < s.len() ==> (#[trigger] s[i]).ctx.stack == id && s[i].ctx.seq < next
}

/// No two entries share a sequence number.
pub open spec fn distinct_seqs(s: Seq<EntryModel>) -> bool {
    forall|i: int, j: int| 0 <= i < j < s.len() ==> (#[trigger] s[i]).ctx.seq != (#[trigger] s[j]).ctx.seq
}

/// A sequence number no entry carries is still carried by none after a removal.
pub proof fn lemma_without_avoids_seq(s: Seq<EntryModel>, ctx: StatusCtx, v: u64)
    requires
        forall|k: int| 0 <= k < s.len() ==> #[trigger] s[k].ctx.seq != v,
    ensures
        forall|i: int| 0 <= i < without_ctx(s, ctx).len() ==> #[trigger] without_ctx(s, ctx)[i].ctx.seq != v,
    decreases s.len(),
{
    if s.len() > 0 {
        let d = s.drop_last();
        assert forall|k: int| 0 <= k < d.len() implies #[trigger] d[k].ctx.seq != v by {
            assert(d[k] == s[k]);
        }
        assert(s[s.len() - 1].ctx.seq != v);
        lemma_without_avoids_seq(d, ctx, v);
        let r = without_ctx(d, ctx);
        assert(without_ctx(s, ctx) == if s.last().ctx == ctx {
            r
        } else {
            r.push(s.last())
        });
    }
}

/// A removal keeps the stack's invariant on its entries.
pub proof fn lemma_without_preserves(s: Seq<EntryModel>, ctx: StatusCtx, id: StackId, next: nat)
    requires
        entries_ok(s, id, next),
        distinct_seqs(s),
    ensures
        entries_ok(without_ctx(s, ctx), id, next),
        distinct_seqs(without_ctx(s, ctx)),
    decreases s.len(),
{
    if s.len() > 0 {
        let d = s.drop_last();
        assert(entries_ok(d, id, next)) by {
            assert forall|i: int| 0 <= i < d.len() implies (#[trigger] d[i]).ctx.stack == id && d[i].ctx.seq < next by {
                assert(d[i] == s[i]);
            }
        }
        assert(distinct_seqs(d)) by {
            assert forall|i: int, j: int| 0 <= i < j < d.len() implies (#[trigger] d[i]).ctx.seq != (#[trigger] d[j]).ctx.seq by {
                assert(d[i] == s[i]);
                assert(d[j] == s[j]);
            }
        }
        lemma_without_preserves(d, ctx, id, next);
        let last = s.last();
        assert forall|k: int| 0 <= k < d.len() implies #[trigger] d[k].ctx.seq != last.ctx.seq by {
            assert(d[k] == s[k]);
        }
        lemma_without_avoids_seq(d, ctx, last.ctx.seq);
    }
}

/// A pushed notice shows on top, and popping its handle restores exactly the
/// entries that were there before: push then pop is the identity on what the
/// stack holds.
pub proof fn law_pop_undoes_push(m: StackModel, msg: Seq<char>)
    requires
        m.wf(),
    ensures
        m.push(msg).top() == msg,
        m.push(msg).pop(m.next_ctx()).1 == PopOutcome::Retracted,
        m.push(msg).pop(m.next_ctx()).0.entries == m.entries,
{
    let p = m.push(msg);
    let ctx = m.next_ctx();
    assert(p.entries.last().ctx == ctx);
    assert(holds(p.entries, ctx));
    assert(p.entries.drop_last() =~= m.entries);
    assert forall|i: int| 0 <= i < m.entries.len() implies #[trigger] m.entries[i].ctx != ctx by {
        assert(m.entries[i].ctx.seq < m.next_seq);
    }
    lemma_without_absent(m.entries, ctx);
}

/// Every handle a push hands out differs from the base handle and from every
/// handle handed out before it.
pub proof fn law_handles_are_distinct(m: StackModel, msg: Seq<char>)
    requires
        m.wf(),
        m.next_seq < u64::MAX,
    ensures
        m.next_ctx() != m.base_ctx(),
        forall|i: int| 0 <= i < m.entries.len() ==> #[trigger] m.entries[i].ctx != m.next_ctx(),
        m.push(msg).next_ctx() != m.next_ctx(),
{
    assert forall|i: int| 0 <= i < m.entries.len() implies #[trigger] m.entries[i].ctx != m.next_ctx() by {
        assert(m.entries[i].ctx.seq < m.next_seq);
    }
}

/// A handle issued by another stack changes nothing and is reported as such.
pub proof fn law_a_foreign_handle_is_reported(m: StackModel, ctx: StatusCtx)
    requires
        ctx.stack != m.id,
    ensures
        m.pop(ctx) == (m, PopOutcome::WrongStack),
{
}

/// A second pop of the same handle is quiet: it finds nothing and changes
/// nothing.
pub proof fn law_a_double_pop_is_quiet(m: StackModel, ctx: StatusCtx)
    requires
        m.wf(),
        ctx.stack == m.id,
    ensures
        m.pop(ctx).0.pop(ctx).1 == PopOutcome::AlreadyRetracted,
        m.pop(ctx).0.pop(ctx).0 == m.pop(ctx).0,
{
    lemma_without_removes(m.entries, ctx);
    let once = m.pop(ctx).0;
    if holds(once.entries, ctx) {
        let j = choose|j: int| 0 <= j < once.entries.len() && #[trigger] once.entries[j].ctx == ctx;
        assert(once.entries[j].ctx == ctx);
    }
}

/// Setting the base never stacks a second one: with no notice pushed, the base
/// is the only entry and it shows; with notices pushed, the topmost still shows.
pub proof fn law_set_base_never_stacks_a_second_base(m: StackModel, msg: Seq<char>)
    requires
        m.wf(),
    ensures
        m.entries.len() == 0 ==> m.set_base(msg).entries.len() == 1 && m.set_base(msg).top() == msg,
        m.set_base(msg).set_base(msg).entries.len() == m.set_base(msg).entries.len(),
        (exists|i: int| 0 <= i < m.entries.len() && #[trigger] m.entries[i].ctx.seq > 0 && i
            == m.entries.len() - 1) ==> m.set_base(msg).top() == m.top(),
{
    let base = m.base_ctx();
    lemma_index_of(m.entries, base);
    let once = m.set_base(msg);
    lemma_index_of(once.entries, base);
    if index_of(m.entries, base) < 0 {
        assert(once.entries[0].ctx == base);
        assert(index_of(once.entries, base) >= 0);
    } else {
        assert(once.entries[index_of(m.entries, base)].ctx == base);
    }
}

} // verus!
