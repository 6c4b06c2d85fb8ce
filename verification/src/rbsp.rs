//! Raw byte sequence payloads and their emulation prevention.
//!
//! Inside a NAL unit the byte patterns `00 00 00`, `00 00 01` and `00 00 02`
//! must not occur, since a decoder would take them for the start of the next
//! unit. The writer therefore puts a guard byte `03` in front of every byte
//! below four that follows two zero bytes, and a decoder takes the guards out
//! again.

use crate::sink::{lemma_refused_byte, ByteSink, WriteError};
use std::collections::VecDeque;
use vstd::prelude::*;

verus! {

/// The guard byte that breaks up a forbidden pattern.
pub const EMULATION_PREVENTION_BYTE: u8 = 3;

/// The byte that ends a payload: a one bit followed by zero bits.
pub const RBSP_STOP_BYTE: u8 = 0x80;

/// Whether `byte` needs a guard in front of it, given the `window` of bytes
/// emitted last: the window holds two zero bytes and `byte` is below four.
pub open spec fn guarded(window: Seq<u8>, byte: u8) -> bool {
    window.len() == 2 && window[0] == 0 && window[1] == 0 && byte <= 3
}

/// The window after `byte` has been emitted: a guard empties the window,
/// then `byte` joins it, and the oldest byte leaves when there are more than two.
pub open spec fn slide(window: Seq<u8>, byte: u8) -> Seq<u8> {
    let kept = if guarded(window, byte) {
        Seq::empty()
    } else {
        window
    };
    let grown = kept.push(byte);
    if grown.len() > 2 {
        grown.skip(1)
    } else {
        grown
    }
}

/// The window of bytes emitted last, once all of `raw` has been written.
pub open spec fn window(raw: Seq<u8>) -> Seq<u8>
    decreases raw.len(),
{
    if raw.len() == 0 {
        Seq::empty()
    } else {
        slide(window(raw.drop_last()), raw.last())
    }
}

/// `raw` with the guard bytes put in.
pub open spec fn escape(raw: Seq<u8>) -> Seq<u8>
    decreases raw.len(),
{
    if raw.len() == 0 {
        Seq::empty()
    } else if guarded(window(raw.drop_last()), raw.last()) {
        escape(raw.drop_last()).push(EMULATION_PREVENTION_BYTE).push(raw.last())
    } else {
        escape(raw.drop_last()).push(raw.last())
    }
}

/// Whether the byte at `i` is a guard to a decoder: a `03` that follows two zero bytes.
pub open spec fn is_guard(enc: Seq<u8>, i: int) -> bool {
    2 <= i < enc.len() && enc[i] == EMULATION_PREVENTION_BYTE && enc[i - 1] == 0 && enc[i - 2] == 0
}

/// `enc` with the guard bytes taken out, as a decoder does it.
pub open spec fn unescape(enc: Seq<u8>) -> Seq<u8>
    decreases enc.len(),
{
    if enc.len() == 0 {
        Seq::empty()
    } else if is_guard(enc, enc.len() - 1) {
        unescape(enc.drop_last())
    } else {
        unescape(enc.drop_last()).push(enc.last())
    }
}

/// No two zero bytes in `enc` are followed by a byte below three.
pub open spec fn start_code_free(enc: Seq<u8>) -> bool {
    forall|i: int|
        0 <= i && i + 2 < enc.len() ==> !(#[trigger] enc[i] == 0 && enc[i + 1] == 0 && enc[i + 2]
            <= 2)
}

/// No two neighbours in `bytes` are both zero.
pub open spec fn no_zero_pair(bytes: Seq<u8>) -> bool {
    forall|i: int| 0 <= i && i + 1 < bytes.len() ==> !(#[trigger] bytes[i] == 0 && bytes[i + 1] == 0)
}

/// How the window sits at the end of the escaped output: it is the last
/// bytes of the output, and where it is shorter than two bytes, the output
/// starts with it or a guard byte stands right before it.
pub open spec fn window_fits(raw: Seq<u8>) -> bool {
    let enc = escape(raw);
    let win = window(raw);
    &&& win.len() <= 2
    &&& win.len() <= enc.len()
    &&& enc.skip(enc.len() - win.len()) == win
    &&& raw.len() <= enc.len()
    &&& (raw.len() > 0 ==> win.len() > 0)
    &&& (win.len() < 2 ==> enc.len() == win.len() || enc[enc.len() - win.len() - 1]
        == EMULATION_PREVENTION_BYTE)
}

/// The window always sits at the end of the escaped output.
pub proof fn lemma_window_fits(raw: Seq<u8>)
    ensures
        window_fits(raw),
    decreases raw.len(),
{
    if raw.len() > 0 {
        let before = raw.drop_last();
        lemma_window_fits(before);
        let enc0 = escape(before);
        let win0 = window(before);
        let enc = escape(raw);
        let win = window(raw);
        let b = raw.last();
        assert(enc0.skip(enc0.len() - win0.len()) == win0);
        if guarded(win0, b) {
            assert(win =~= seq![b]);
            assert(enc.skip(enc.len() - 1) =~= win);
        } else if win0.len() == 2 {
            assert(win =~= seq![win0[1], b]);
            assert(win0[1] == enc0[enc0.len() - 1]);
            assert(enc.skip(enc.len() - 2) =~= win);
        } else {
            assert(win =~= win0.push(b));
            assert(forall|j: int|
                0 <= j < win0.len() ==> win0[j] == enc0[enc0.len() - win0.len() + j]);
            assert(enc.skip(enc.len() - win.len()) =~= win);
        }
    } else {
        assert(escape(raw).skip(0) =~= window(raw));
    }
}

/// Emulation prevention leaves no forbidden pattern behind: in the escaped
/// output two zero bytes are never followed by `00`, `01` or `02`.
pub proof fn lemma_escape_start_code_free(raw: Seq<u8>)
    ensures
        start_code_free(escape(raw)),
    decreases raw.len(),
{
    if raw.len() > 0 {
        let before = raw.drop_last();
        lemma_escape_start_code_free(before);
        lemma_window_fits(before);
        let enc0 = escape(before);
        let win0 = window(before);
        let enc = escape(raw);
        assert(enc0.skip(enc0.len() - win0.len()) == win0);
        assert(forall|j: int| 0 <= j < win0.len() ==> win0[j] == enc0[enc0.len() - win0.len() + j]);
        assert forall|i: int| 0 <= i && i + 2 < enc.len() implies !(#[trigger] enc[i] == 0 && enc[i
            + 1] == 0 && enc[i + 2] <= 2) by {
            if i + 2 < enc0.len() {
                assert(enc[i] == enc0[i] && enc[i + 1] == enc0[i + 1] && enc[i + 2] == enc0[i + 2]);
            }
        }
    }
}

/// Taking the guards out of the escaped output gives back what was written.
pub proof fn lemma_unescape_escape(raw: Seq<u8>)
    ensures
        unescape(escape(raw)) == raw,
    decreases raw.len(),
{
    if raw.len() > 0 {
        let before = raw.drop_last();
        lemma_unescape_escape(before);
        lemma_window_fits(before);
        let enc0 = escape(before);
        let win0 = window(before);
        let enc = escape(raw);
        let b = raw.last();
        assert(enc0.skip(enc0.len() - win0.len()) == win0);
        assert(forall|j: int| 0 <= j < win0.len() ==> win0[j] == enc0[enc0.len() - win0.len() + j]);
        if guarded(win0, b) {
            let mid = enc0.push(EMULATION_PREVENTION_BYTE);
            assert(enc.drop_last() =~= mid);
            assert(mid.drop_last() =~= enc0);
            assert(is_guard(mid, mid.len() - 1));
            assert(!is_guard(enc, enc.len() - 1));
            assert(unescape(mid) == before);
            assert(unescape(enc) == before.push(b));
        } else {
            assert(enc.drop_last() =~= enc0);
            assert(!is_guard(enc, enc.len() - 1));
            assert(unescape(enc) == before.push(b));
        }
        assert(before.push(b) =~= raw);
    }
}

/// What was escaped first stays first: the escaped form of a prefix is a
/// prefix of the escaped form of the whole.
pub proof fn lemma_escape_prefix(raw: Seq<u8>, k: int)
    requires
        0 <= k <= raw.len(),
    ensures
        escape(raw.take(k)).len() <= escape(raw).len(),
        escape(raw).take(escape(raw.take(k)).len() as int) == escape(raw.take(k)),
    decreases raw.len(),
{
    if k == raw.len() {
        assert(raw.take(k) =~= raw);
        assert(escape(raw).take(escape(raw).len() as int) =~= escape(raw));
    } else {
        let before = raw.drop_last();
        lemma_escape_prefix(before, k);
        assert(before.take(k) =~= raw.take(k));
        let short = escape(raw.take(k));
        assert(escape(raw).take(short.len() as int) =~= escape(before).take(short.len() as int));
    }
}

/// Bytes without two zero neighbours pass through emulation prevention unchanged.
pub proof fn lemma_escape_no_zero_pair(raw: Seq<u8>)
    requires
        no_zero_pair(raw),
    ensures
        escape(raw) == raw,
        window(raw) == if raw.len() <= 2 {
            raw
        } else {
            raw.skip(raw.len() - 2)
        },
    decreases raw.len(),
{
    if raw.len() > 0 {
        let before = raw.drop_last();
        assert(no_zero_pair(before)) by {
            assert forall|i: int| 0 <= i && i + 1 < before.len() implies !(#[trigger] before[i] == 0
                && before[i + 1] == 0) by {
                assert(before[i] == raw[i] && before[i + 1] == raw[i + 1]);
            }
        }
        lemma_escape_no_zero_pair(before);
        let win0 = window(before);
        if win0.len() == 2 {
            assert(win0[0] == raw[raw.len() - 3] && win0[1] == raw[raw.len() - 2]);
            assert(!(raw[raw.len() - 3] == 0 && raw[raw.len() - 3 + 1] == 0));
        }
        assert(!guarded(win0, raw.last()));
        assert(escape(raw) =~= raw);
        assert(window(raw) =~= if raw.len() <= 2 {
            raw
        } else {
            raw.skip(raw.len() - 2)
        });
    }
}

/// Where the front of a payload has no two zero neighbours, the escaped
/// payload has the same front.
pub proof fn lemma_escape_keeps_front(front: Seq<u8>, rest: Seq<u8>)
    requires
        no_zero_pair(front),
    ensures
        escape(front + rest).len() >= front.len(),
        escape(front + rest).take(front.len() as int) == front,
{
    let all = front + rest;
    assert(all.take(front.len() as int) =~= front);
    lemma_escape_prefix(all, front.len() as int);
    lemma_escape_no_zero_pair(front);
}

/// How long the shortest front part of `content` is that `sink` does not
/// hold, looking from the length `from` on; the length of `content` where
/// it holds them all.
pub open spec fn first_unheld<W: ByteSink>(sink: W, content: Seq<u8>, from: int) -> int
    decreases content.len() - from,
{
    if from >= content.len() || !sink.holds(content.take(from)) {
        from
    } else {
        first_unheld(sink, content, from + 1)
    }
}

/// Where a sink holds the front part of `content` of length `m - 1` and not
/// the one of length `m`, the shortest front part it does not hold has the
/// length `m`.
pub proof fn lemma_first_unheld<W: ByteSink>(sink: W, content: Seq<u8>, m: int, from: int)
    requires
        sink.inv(),
        0 <= from <= m <= content.len(),
        1 <= m,
        sink.holds(content.take(m - 1)),
        !sink.holds(content.take(m)),
    ensures
        first_unheld(sink, content, from) == m,
    decreases m - from,
{
    if from < m {
        sink.holds_prefix(content.take(m - 1), from);
        assert(content.take(m - 1).take(from) =~= content.take(from));
        lemma_first_unheld(sink, content, m, from + 1);
    }
}

/// Taking bytes does not change which front part of a content is the
/// shortest that a sink does not hold.
pub proof fn lemma_first_unheld_follows<W: ByteSink>(
    after: W,
    before: W,
    content: Seq<u8>,
    from: int,
)
    requires
        after.follows(&before),
    ensures
        first_unheld(after, content, from) == first_unheld(before, content, from),
    decreases content.len() - from,
{
    after.follows_holds(&before, content.take(from));
    if from < content.len() && before.holds(content.take(from)) {
        lemma_first_unheld_follows(after, before, content, from + 1);
    }
}

/// Where a sink does not hold `short`, a front part of `long`, the
/// shortest front part that it does not hold is the same in both.
pub proof fn lemma_first_unheld_extends<W: ByteSink>(
    sink: W,
    short: Seq<u8>,
    long: Seq<u8>,
    from: int,
)
    requires
        short.len() <= long.len(),
        long.take(short.len() as int) == short,
        !sink.holds(short),
        0 <= from <= short.len(),
    ensures
        first_unheld(sink, long, from) == first_unheld(sink, short, from),
        first_unheld(sink, short, from) <= short.len(),
        long.take(first_unheld(sink, long, from)) == short.take(first_unheld(sink, short, from)),
    decreases short.len() - from,
{
    assert(long.take(short.len() as int).take(from) =~= long.take(from));
    assert(short.take(short.len() as int) =~= short);
    if from < short.len() && sink.holds(short.take(from)) {
        lemma_first_unheld_extends(sink, short, long, from + 1);
    }
}

/// Where the inner sink of a payload writer refuses the byte that would
/// bring it to `asked`, a front part of the escaped form of `raw` behind
/// `base`, the inner sink does not hold that escaped form, and its error is
/// its refusal of the shortest front part of that form that it does not hold.
proof fn lemma_inner_refusal<W: ByteSink>(
    first: W,
    inner: W,
    base: Seq<u8>,
    raw: Seq<u8>,
    asked: Seq<u8>,
    e: WriteError,
)
    requires
        first.inv(),
        inner.inv(),
        inner.follows(&first),
        asked.len() >= 1,
        asked.drop_last() == inner.taken(),
        !inner.holds(asked),
        e == inner.refusal(asked),
        asked.len() <= (base + escape(raw)).len(),
        (base + escape(raw)).take(asked.len() as int) == asked,
    ensures
        !first.holds(base + escape(raw)),
        e == first.refusal(
            (base + escape(raw)).take(first_unheld(first, base + escape(raw), 0)),
        ),
{
    let full = base + escape(raw);
    let m = asked.len() as int;
    inner.holds_taken();
    inner.follows_holds(&first, inner.taken());
    inner.follows_holds(&first, asked);
    assert(full.take(m - 1) =~= asked.drop_last());
    if first.holds(full) {
        first.holds_prefix(full, m);
    }
    lemma_first_unheld(first, full, m, 0);
}

/// A writer of one raw byte sequence payload.
///
/// It stands on an inner sink and passes on what it is given, with guard
/// bytes put in where the rule of emulation prevention asks for them.
pub struct RbspWriter<W: ByteSink> {
    last_written: VecDeque<u8>,
    inner: W,
    base: Ghost<Seq<u8>>,
    raw: Ghost<Seq<u8>>,
}

impl<W: ByteSink> RbspWriter<W> {
    /// The inner sink as it stands now.
    pub closed spec fn sink(&self) -> W {
        self.inner
    }

    /// What the inner sink had taken when the writer was put on it.
    pub closed spec fn base(&self) -> Seq<u8> {
        self.base@
    }

    /// Puts a writer on `inner`, with an empty window and nothing written yet.
    pub fn new(inner: W) -> (writer: Self)
        requires
            inner.inv(),
        ensures
            writer.inv(),
            writer.sink() == inner,
            writer.base() == inner.taken(),
            writer.taken() == Seq::<u8>::empty(),
    {
        let ghost base = inner.taken();
        Self {
            last_written: VecDeque::with_capacity(3),
            inner,
            base: Ghost(base),
            raw: Ghost(Seq::empty()),
        }
    }

    /// Flushes nothing: every byte was handed on as it was written.
    pub fn flush(&mut self)
        ensures
            *final(self) == *old(self),
    {
    }
}

/// A payload writer refuses at one place only: where it does not hold a
/// front part of a payload, its refusal of the whole payload is its refusal
/// of that front part. So the refusal that comes back from writing a payload
/// in pieces is the refusal of the payload.
pub proof fn lemma_refusal_of_front<W: ByteSink>(writer: RbspWriter<W>, content: Seq<u8>, k: int)
    requires
        0 <= k <= content.len(),
        !writer.holds(content.take(k)),
    ensures
        writer.refusal(content.take(k)) == writer.refusal(content),
{
    lemma_escape_prefix(content, k);
    let short = writer.base() + escape(content.take(k));
    let long = writer.base() + escape(content);
    assert(long.take(short.len() as int) =~= short);
    lemma_first_unheld_extends(writer.sink(), short, long, 0);
}

/// A writer of a payload that can be ended.
pub trait RbspWrite<W: ByteSink>: ByteSink {
    /// What ending the payload hands back.
    type Writer;

    /// Ends the payload with the stop byte.
    fn finish_rbsp(self) -> (r: Result<Self::Writer, WriteError>)
        requires
            self.inv(),
        ensures
            r is Ok ==> self.holds(self.taken().push(RBSP_STOP_BYTE)),
            r matches Err(e) ==> e is NalUnitTooLarge,
    ;
}

impl<W: ByteSink> RbspWrite<W> for RbspWriter<W> {
    type Writer = W;

    /// Ends the payload: writes the stop byte, through the same rule as any
    /// other byte, and hands back the inner sink.
    ///
    /// On success the sink has taken, after what it had before, the escaped
    /// form of everything written followed by the stop byte.
    fn finish_rbsp(self) -> (r: Result<W, WriteError>)
        ensures
            r is Ok <==> self.holds(self.taken().push(RBSP_STOP_BYTE)),
            r matches Ok(sink) ==> {
                &&& sink.inv()
                &&& sink.taken() == self.base() + escape(self.taken().push(RBSP_STOP_BYTE))
                &&& sink.follows(&self.sink())
            },
            r matches Err(e) ==> e == self.refusal(self.taken().push(RBSP_STOP_BYTE)),
    {
        let mut writer = self;
        let stop = [RBSP_STOP_BYTE];
        assert(stop@ =~= seq![RBSP_STOP_BYTE]);
        assert(self.taken() + stop@ =~= self.taken().push(RBSP_STOP_BYTE));
        match writer.write(stop.as_slice()) {
            Ok(_) => Ok(writer.inner),
            Err(e) => {
                proof {
                    lemma_refused_byte(self, RBSP_STOP_BYTE, e);
                }
                Err(e)
            },
        }
    }
}

impl<W: ByteSink> ByteSink for RbspWriter<W> {
    closed spec fn inv(&self) -> bool {
        &&& self.inner.inv()
        &&& self.last_written@ == window(self.raw@)
        &&& self.inner.taken() == self.base@ + escape(self.raw@)
    }

    /// The bytes written to the payload, as they were before escaping.
    closed spec fn taken(&self) -> Seq<u8> {
        self.raw@
    }

    /// A payload is held when the inner sink holds its escaped form after
    /// what it had taken before.
    open spec fn holds(&self, content: Seq<u8>) -> bool {
        self.sink().holds(self.base() + escape(content))
    }

    /// The refusal of a payload is the refusal of the inner sink at the
    /// first byte that it takes no more: at the shortest front part of the
    /// escaped payload, behind what it had taken before, that it does not hold.
    open spec fn refusal(&self, content: Seq<u8>) -> WriteError {
        let full = self.base() + escape(content);
        self.sink().refusal(full.take(first_unheld(self.sink(), full, 0)))
    }

    /// The writer stands on the same ground as before, and its inner sink
    /// follows the inner sink of before.
    open spec fn follows(&self, before: &Self) -> bool {
        self.base() == before.base() && self.sink().follows(&before.sink())
    }

    proof fn follows_itself(&self) {
        self.inner.follows_itself();
    }

    proof fn follows_on(&self, mid: &Self, before: &Self) {
        self.inner.follows_on(&mid.inner, &before.inner);
    }

    proof fn follows_holds(&self, before: &Self, content: Seq<u8>) {
        let full = self.base@ + escape(content);
        self.inner.follows_holds(&before.inner, full);
        lemma_first_unheld_follows(self.inner, before.inner, full, 0);
        self.inner.follows_holds(
            &before.inner,
            full.take(first_unheld(before.inner, full, 0)),
        );
    }

    proof fn holds_taken(&self) {
        self.inner.holds_taken();
    }

    proof fn holds_prefix(&self, content: Seq<u8>, k: int) {
        lemma_escape_prefix(content, k);
        let whole = self.base@ + escape(content);
        let part = self.base@ + escape(content.take(k));
        assert(whole.take(part.len() as int) =~= part);
        self.inner.holds_prefix(whole, part.len() as int);
    }

    /// Writes `buf` byte by byte, each with a guard in front where needed.
    fn write(&mut self, buf: &[u8]) -> (r: Result<usize, WriteError>) {
        let ghost raw0 = self.raw@;
        let ghost goal = self.base@ + escape(raw0 + buf@);
        let mut written: usize = 0;
        proof {
            self.inner.follows_itself();
            assert(raw0 + buf@.take(0) =~= raw0);
        }
        while written < buf.len()
            invariant
                written <= buf.len(),
                self.inner.inv(),
                self.base@ == old(self).base@,
                self.raw@ == raw0 + buf@.take(written as int),
                self.last_written@ == window(self.raw@),
                self.inner.taken() == self.base@ + escape(self.raw@),
                self.inner.follows(&old(self).inner),
                raw0 == old(self).raw@,
                old(self).inner.inv(),
                goal == self.base@ + escape(raw0 + buf@),
            decreases buf.len() - written,
        {
            let byte = buf[written];
            let ghost next = self.raw@.push(byte);
            proof {
                assert(next =~= raw0 + buf@.take(written as int + 1));
                assert(next.drop_last() =~= self.raw@);
                assert((raw0 + buf@).take(raw0.len() + written + 1) =~= next);
                lemma_escape_prefix(raw0 + buf@, raw0.len() + written + 1);
                lemma_window_fits(self.raw@);
            }
            let ghost reach = self.base@ + escape(next);
            assert(goal.take(reach.len() as int) =~= reach);
            if self.last_written.len() == 2 && self.last_written[0] == 0 && self.last_written[1]
                == 0 && byte <= 3 {
                let guard = [EMULATION_PREVENTION_BYTE];
                let ghost asked = self.inner.taken() + guard@;
                let ghost before = self.inner;
                assert(reach.take(asked.len() as int) =~= asked);
                assert(goal.take(asked.len() as int) =~= asked);
                proof {
                    before.follows_holds(&old(self).inner, asked);
                }
                match self.inner.write(guard.as_slice()) {
                    Ok(_) => {
                        proof {
                            self.inner.follows_on(&before, &old(self).inner);
                        }
                    },
                    Err(e) => {
                        proof {
                            if old(self).inner.holds(goal) {
                                old(self).inner.holds_prefix(goal, asked.len() as int);
                            }
                            let cut = choose|cut: int|
                                0 <= cut <= guard@.len() && !before.holds(
                                    before.taken() + #[trigger] guard@.take(cut),
                                ) && e == before.refusal(before.taken() + guard@.take(cut));
                            before.holds_taken();
                            assert(before.taken() + guard@.take(0) =~= before.taken());
                            assert(before.taken() + guard@.take(1) =~= asked);
                            assert(asked.drop_last() =~= before.taken());
                            lemma_inner_refusal(
                                old(self).inner,
                                before,
                                self.base@,
                                next,
                                asked,
                                e,
                            );
                            assert(old(self).taken() + buf@.take(written as int + 1) =~= next);
                        }
                        return Err(e);
                    },
                }
                self.last_written.clear();
            }
            let one = [byte];
            let ghost asked = self.inner.taken() + one@;
            let ghost before = self.inner;
            assert(asked =~= reach);
            proof {
                before.follows_holds(&old(self).inner, asked);
            }
            match self.inner.write(one.as_slice()) {
                Ok(_) => {
                    proof {
                        self.inner.follows_on(&before, &old(self).inner);
                    }
                },
                Err(e) => {
                    proof {
                        if old(self).inner.holds(goal) {
                            old(self).inner.holds_prefix(goal, asked.len() as int);
                        }
                        let cut = choose|cut: int|
                            0 <= cut <= one@.len() && !before.holds(
                                before.taken() + #[trigger] one@.take(cut),
                            ) && e == before.refusal(before.taken() + one@.take(cut));
                        before.holds_taken();
                        assert(before.taken() + one@.take(0) =~= before.taken());
                        assert(before.taken() + one@.take(1) =~= asked);
                        assert(asked.drop_last() =~= before.taken());
                        assert(reach.take(asked.len() as int) =~= asked);
                        lemma_inner_refusal(old(self).inner, before, self.base@, next, asked, e);
                        assert(old(self).taken() + buf@.take(written as int + 1) =~= next);
                    }
                    return Err(e);
                },
            }
            written += 1;
            self.last_written.push_back(byte);
            if self.last_written.len() > 2 {
                self.last_written.pop_front();
            }
            self.raw = Ghost(next);
            assert(self.last_written@ =~= window(next));
        }
        proof {
            assert(buf@.take(written as int) =~= buf@);
            self.inner.holds_taken();
            self.inner.follows_holds(&old(self).inner, goal);
        }
        Ok(written)
    }
}

} // verus!
