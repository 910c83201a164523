use vstd::prelude::*;

verus! {

/// The most diagnostics one buffer holds; later ones are dropped.
pub const MAX_BUFFER_MESSAGES: usize = 100000;

/// How a diagnostic is shown.
#[derive(Clone, Copy, Debug, PartialEq, Eq, Structural)]
pub enum TextBufferMessageLevel {
    Error,
    Warning,
    Log,
}

/// A diagnostic marker over the byte range `head..tail` of a buffer.
pub struct TextBufferMessage {
    pub head: usize,
    pub tail: usize,
    pub level: TextBufferMessageLevel,
    pub body: String,
}

/// The diagnostic markers of one text buffer, kept in order of their start.
pub struct TextBuffer {
    pub path: String,
    pub messages: Vec<TextBufferMessage>,
}

pub struct TextBufferView {
    pub path: Seq<char>,
    pub messages: Seq<TextBufferMessage>,
}

impl View for TextBuffer {
    type V = TextBufferView;

    open spec fn view(&self) -> TextBufferView {
        TextBufferView { path: self.path@, messages: self.messages@ }
    }
}

/// The markers are ordered by their start.
pub open spec fn sorted_by_head(ms: Seq<TextBufferMessage>) -> bool {
    forall|i: int, j: int| 0 <= i <= j < ms.len() ==> ms[i].head <= ms[j].head
}

/// Where a marker starting at `head` goes: right after the last marker,
/// scanning from the end, whose start is not after `head`.
pub open spec fn insert_pos(ms: Seq<TextBufferMessage>, head: usize) -> int
    decreases ms.len(),
{
    if ms.len() == 0 {
        0
    } else if ms.last().head <= head {
        ms.len() as int
    } else {
        insert_pos(ms.drop_last(), head)
    }
}

/// The insertion point lies within the list, every marker after it starts
/// later, and the one before it starts no later.
pub proof fn lemma_insert_pos_bounds(ms: Seq<TextBufferMessage>, head: usize)
    ensures
        0 <= insert_pos(ms, head) <= ms.len(),
        forall|j: int| insert_pos(ms, head) <= j < ms.len() ==> ms[j].head > head,
        insert_pos(ms, head) > 0 ==> ms[insert_pos(ms, head) - 1].head <= head,
    decreases ms.len(),
{
    if ms.len() > 0 && ms.last().head > head {
        let p = ms.drop_last();
        lemma_insert_pos_bounds(p, head);
        assert forall|j: int| insert_pos(ms, head) <= j < ms.len() implies ms[j].head > head by {
            if j < p.len() {
                assert(p[j] == ms[j]);
            }
        }
        if insert_pos(ms, head) > 0 {
            assert(p[insert_pos(ms, head) - 1] == ms[insert_pos(ms, head) - 1]);
        }
    }
}

/// Inserting at `insert_pos` keeps a sorted list sorted.
pub proof fn lemma_insert_keeps_sorted(ms: Seq<TextBufferMessage>, m: TextBufferMessage)
    requires
        sorted_by_head(ms),
    ensures
        sorted_by_head(ms.insert(insert_pos(ms, m.head), m)),
{
    lemma_insert_pos_bounds(ms, m.head);
    let p = insert_pos(ms, m.head);
    let r = ms.insert(p, m);
    assert forall|i: int, j: int| 0 <= i <= j < r.len() implies r[i].head <= r[j].head by {
        if i < p && j > p {
            assert(r[j] == ms[j - 1]);
        } else if i == p && j > p {
            assert(r[j] == ms[j - 1]);
        } else if i < p && j == p {
            assert(ms[i].head <= ms[p - 1].head);
        } else if i > p {
            assert(r[i] == ms[i - 1] && r[j] == ms[j - 1]);
        }
    }
}

/// The store of text buffers that diagnostics are attached to, keyed by path.
pub struct TextBuffers {
    pub buffers: Vec<TextBuffer>,
}

impl View for TextBuffers {
    type V = Seq<TextBufferView>;

    open spec fn view(&self) -> Seq<TextBufferView> {
        self.buffers@.map_values(|b: TextBuffer| b@)
    }
}

pub open spec fn has_path(bs: Seq<TextBufferView>, path: Seq<char>) -> bool {
    exists|i: int| 0 <= i < bs.len() && bs[i].path == path
}

pub open spec fn path_index(bs: Seq<TextBufferView>, path: Seq<char>) -> int {
    choose|i: int| 0 <= i < bs.len() && bs[i].path == path
}

/// The store with a buffer for `path`, an empty one appended if it had none.
pub open spec fn with_buffer(bs: Seq<TextBufferView>, path: Seq<char>) -> Seq<TextBufferView> {
    if has_path(bs, path) {
        bs
    } else {
        bs.push(TextBufferView { path, messages: Seq::empty() })
    }
}

/// Every buffer with its markers removed.
pub open spec fn cleared(bs: Seq<TextBufferView>) -> Seq<TextBufferView> {
    Seq::new(bs.len(), |i: int| TextBufferView { path: bs[i].path, messages: Seq::empty() })
}

impl TextBuffers {
    /// Paths are unique and every buffer's markers are sorted.
    pub open spec fn wf(&self) -> bool {
        &&& forall|i: int, j: int|
            0 <= i < self@.len() && 0 <= j < self@.len() && i != j ==> self@[i].path != self@[j].path
        &&& forall|i: int| 0 <= i < self@.len() ==> sorted_by_head(#[trigger] self@[i].messages)
    }

    pub fn new() -> (r: TextBuffers)
        ensures
            r@.len() == 0,
            r.wf(),
    {
        let r = TextBuffers { buffers: Vec::new() };
        assert(r@ =~= Seq::<TextBufferView>::empty());
        r
    }

    /// The position of the buffer for `path`, created empty if there was none.
    pub fn text_buffer_from_path(&mut self, path: &String) -> (r: usize)
        requires
            old(self).wf(),
        ensures
            final(self).wf(),
            final(self)@ == with_buffer(old(self)@, path@),
            has_path(final(self)@, path@),
            r == path_index(final(self)@, path@),
            r < final(self)@.len(),
    {
        let mut i: usize = 0;
        while i < self.buffers.len()
            invariant
                i <= self.buffers@.len(),
                self.wf(),
                forall|j: int| 0 <= j < i ==> self@[j].path != path@,
            decreases self.buffers@.len() - i,
        {
            if self.buffers[i].path == *path {
                proof {
                    assert(self@[i as int].path == path@);
                    assert(has_path(self@, path@));
                    let k = path_index(self@, path@);
                    assert(self@[k].path == path@);
                }
                return i;
            }
            i = i + 1;
        }
        let ghost bs = self@;
        self.buffers.push(TextBuffer { path: path.clone(), messages: Vec::new() });
        proof {
            assert(self@ =~= with_buffer(bs, path@));
            assert(self@[i as int].path == path@);
            assert(has_path(self@, path@));
            let k = path_index(self@, path@);
            assert(self@[k].path == path@);
            assert(self@[i as int].messages =~= Seq::<TextBufferMessage>::empty());
        }
        i
    }

    /// Removes the markers of every buffer.
    pub fn clear_messages(&mut self)
        requires
            old(self).wf(),
        ensures
            final(self).wf(),
            final(self)@ == cleared(old(self)@),
    {
        let ghost bs = self@;
        let mut i: usize = 0;
        while i < self.buffers.len()
            invariant
                i <= self.buffers@.len(),
                self@.len() == bs.len(),
                forall|j: int| 0 <= j < i ==> self@[j] == cleared(bs)[j],
                forall|j: int| i <= j < bs.len() ==> self@[j] == bs[j],
            decreases self.buffers@.len() - i,
        {
            self.buffers[i].messages.clear();
            proof {
                assert(self@[i as int].messages =~= Seq::<TextBufferMessage>::empty());
            }
            i = i + 1;
        }
        assert(self@ =~= cleared(bs));
        proof {
            assert forall|k: int| 0 <= k < self@.len() implies sorted_by_head(#[trigger] self@[k].messages) by {
                assert(self@[k].messages.len() == 0);
            }
            assert forall|a: int, b: int| 0 <= a < self@.len() && 0 <= b < self@.len() && a != b
                implies self@[a].path != self@[b].path by {
                assert(self@[a].path == bs[a].path && self@[b].path == bs[b].path);
            }
        }
    }

    /// Inserts `m` into the markers of buffer `idx` at `insert_pos`, so that
    /// they stay ordered by start, markers with equal starts in arrival order.
    pub fn insert_message(&mut self, idx: usize, m: TextBufferMessage)
        requires
            old(self).wf(),
            idx < old(self)@.len(),
            old(self)@[idx as int].messages.len() < usize::MAX,
        ensures
            final(self).wf(),
            final(self)@[idx as int].messages.len() == old(self)@[idx as int].messages.len() + 1,
            0 <= insert_pos(old(self)@[idx as int].messages, m.head) <= old(self)@[idx as int].messages.len(),
            final(self)@ == old(self)@.update(
                idx as int,
                TextBufferView {
                    path: old(self)@[idx as int].path,
                    messages: old(self)@[idx as int].messages.insert(
                        insert_pos(old(self)@[idx as int].messages, m.head),
                        m,
                    ),
                },
            ),
    {
        let ghost bs = self@;
        let ghost ms = self@[idx as int].messages;
        let head = m.head;
        let mut i: usize = self.buffers[idx].messages.len();
        assert(ms.subrange(0, i as int) =~= ms);
        while i > 0 && self.buffers[idx].messages[i - 1].head > head
            invariant
                idx < self.buffers@.len(),
                self@ == bs,
                ms == self@[idx as int].messages,
                i <= ms.len(),
                insert_pos(ms, head) == insert_pos(ms.subrange(0, i as int), head),
            decreases i,
        {
            proof {
                assert(ms.subrange(0, i as int).drop_last() =~= ms.subrange(0, i - 1));
            }
            i = i - 1;
        }
        proof {
            if i > 0 {
                assert(ms.subrange(0, i as int).last() == ms[i - 1]);
            } else {
                assert(ms.subrange(0, 0) =~= Seq::<TextBufferMessage>::empty());
            }
            assert(insert_pos(ms, head) == i);
            lemma_insert_keeps_sorted(ms, m);
        }
        self.buffers[idx].messages.insert(i, m);
        proof {
            assert(self@ =~= bs.update(
                idx as int,
                TextBufferView { path: bs[idx as int].path, messages: ms.insert(i as int, m) },
            ));
            assert forall|k: int| 0 <= k < self@.len() implies sorted_by_head(#[trigger] self@[k].messages) by {
                if k != idx {
                    assert(self@[k] == bs[k]);
                }
            }
            assert forall|a: int, b: int| 0 <= a < self@.len() && 0 <= b < self@.len() && a != b
                implies self@[a].path != self@[b].path by {
                assert(self@[a].path == bs[a].path && self@[b].path == bs[b].path);
            }
        }
    }
}

} // verus!
