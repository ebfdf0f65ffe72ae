//! Message framing: finds the complete request texts inside the bytes a
//! connection has accumulated.  A request is one balanced top-level JSON
//! object; braces inside string literals (and escaped quotes inside them) do
//! not count.  The scanner is a small state machine run byte by byte; its
//! specification-level twin lets the rest of the library state exactly which
//! messages a buffer yields and which suffix stays behind.
use vstd::prelude::*;

verus! {

/// The scanner's state after some bytes of one message have been seen.
pub ghost struct ScanState {
    /// How many braces are currently open outside string literals.
    pub depth: nat,
    /// Whether the scanner stands inside a string literal.
    pub in_str: bool,
    /// Whether the previous byte was an unconsumed escape inside a literal.
    pub esc: bool,
    /// Whether any opening brace has been seen yet.
    pub open: bool,
}

pub open spec fn scan_init() -> ScanState {
    ScanState { depth: 0, in_str: false, esc: false, open: false }
}

/// One byte advances the scanner.
pub open spec fn scan_step(st: ScanState, b: u8) -> ScanState {
    if st.in_str {
        if st.esc {
            ScanState { esc: false, ..st }
        } else if b == 0x5c {
            ScanState { esc: true, ..st }
        } else if b == 0x22 {
            ScanState { in_str: false, ..st }
        } else {
            st
        }
    } else {
        if b == 0x22 {
            ScanState { in_str: true, ..st }
        } else if b == 0x7b {
            ScanState { depth: st.depth + 1, open: true, ..st }
        } else if b == 0x7d && st.depth > 0 {
            ScanState { depth: (st.depth - 1) as nat, ..st }
        } else {
            st
        }
    }
}

/// A message is complete once a brace has been opened and all are closed again.
pub open spec fn message_done(st: ScanState) -> bool {
    st.open && st.depth == 0 && !st.in_str
}

/// The scanner state after a whole byte sequence.
pub open spec fn scan_seq(st: ScanState, s: Seq<u8>) -> ScanState
    decreases s.len(),
{
    if s.len() == 0 {
        st
    } else {
        scan_seq(scan_step(st, s[0]), s.skip(1))
    }
}

/// The length of the shortest prefix of `s` that completes one message when
/// scanning starts in `st`, if any prefix does.
pub open spec fn end_from(st: ScanState, s: Seq<u8>) -> Option<int>
    decreases s.len(),
{
    if s.len() == 0 {
        None
    } else {
        let st2 = scan_step(st, s[0]);
        if message_done(st2) {
            Some(1)
        } else {
            match end_from(st2, s.skip(1)) {
                Some(k) => Some(k + 1),
                None => None,
            }
        }
    }
}

pub proof fn lemma_end_from_bounds(st: ScanState, s: Seq<u8>)
    ensures
        end_from(st, s) matches Some(k) ==> 1 <= k <= s.len(),
    decreases s.len(),
{
    if s.len() > 0 {
        lemma_end_from_bounds(scan_step(st, s[0]), s.skip(1));
    }
}

/// The complete messages at the front of `s`, in order.
pub open spec fn msgs_of(s: Seq<u8>) -> Seq<Seq<u8>>
    decreases s.len(),
{
    match end_from(scan_init(), s) {
        Some(k) => if 1 <= k <= s.len() {
            seq![s.take(k)] + msgs_of(s.skip(k))
        } else {
            Seq::empty()
        },
        None => Seq::empty(),
    }
}

/// What stays in the buffer after every complete message is taken: the bytes
/// of a trailing, not yet complete message.
pub open spec fn rest_of(s: Seq<u8>) -> Seq<u8>
    decreases s.len(),
{
    match end_from(scan_init(), s) {
        Some(k) => if 1 <= k <= s.len() {
            rest_of(s.skip(k))
        } else {
            s
        },
        None => s,
    }
}

/// Appending bytes cannot change where the first complete message ends.
pub proof fn lemma_end_from_extend(st: ScanState, a: Seq<u8>, b: Seq<u8>)
    requires
        end_from(st, a) is Some,
    ensures
        end_from(st, a + b) == end_from(st, a),
    decreases a.len(),
{
    if a.len() > 0 {
        let st2 = scan_step(st, a[0]);
        assert((a + b)[0] == a[0]);
        if message_done(st2) {
        } else {
            lemma_end_from_extend(st2, a.skip(1), b);
            assert(a.skip(1) + b =~= (a + b).skip(1));
        }
    }
}

/// One more byte either completes the first message where the scanner now
/// stands, or leaves it incomplete; it cannot move an earlier end.
pub proof fn lemma_end_from_push(st: ScanState, a: Seq<u8>, b: u8)
    ensures
        end_from(st, a) matches Some(k) ==> end_from(st, a.push(b)) == Some(k),
        end_from(st, a) is None && message_done(scan_step(scan_seq(st, a), b))
            ==> end_from(st, a.push(b)) == Some(a.len() as int + 1),
        end_from(st, a) is None && !message_done(scan_step(scan_seq(st, a), b))
            ==> end_from(st, a.push(b)) is None,
    decreases a.len(),
{
    if a.len() == 0 {
        assert(a.push(b)[0] == b);
        assert(a.push(b).skip(1) =~= Seq::<u8>::empty());
        assert(scan_seq(st, a) == st);
        assert(end_from(scan_step(st, b), a.push(b).skip(1)) is None);
    } else {
        let st2 = scan_step(st, a[0]);
        assert(a.push(b)[0] == a[0]);
        assert(a.push(b).skip(1) =~= a.skip(1).push(b));
        lemma_end_from_push(st2, a.skip(1), b);
        assert(scan_seq(st, a) == scan_seq(st2, a.skip(1)));
        if !message_done(st2) {
            assert(end_from(st, a) matches Some(k)
                ==> end_from(st2, a.skip(1)) == Some(k - 1));
            assert(end_from(st, a.push(b)) == (match end_from(st2, a.skip(1).push(b)) {
                Some(j) => Some(j + 1),
                None => None,
            }));
        }
    }
}

/// Scanning a sequence and then one byte is scanning the extended sequence.
pub proof fn lemma_scan_seq_push(st: ScanState, a: Seq<u8>, b: u8)
    ensures
        scan_seq(st, a.push(b)) == scan_step(scan_seq(st, a), b),
    decreases a.len(),
{
    if a.len() == 0 {
        assert(a.push(b)[0] == b);
        assert(a.push(b).skip(1) =~= Seq::<u8>::empty());
        assert(scan_seq(st, a) == st);
        assert(scan_seq(scan_step(st, b), a.push(b).skip(1)) == scan_step(st, b));
    } else {
        assert(a.push(b)[0] == a[0]);
        assert(a.push(b).skip(1) =~= a.skip(1).push(b));
        lemma_scan_seq_push(scan_step(st, a[0]), a.skip(1), b);
        assert(scan_seq(st, a) == scan_seq(scan_step(st, a[0]), a.skip(1)));
    }
}

/// Framing does not depend on how the bytes were cut into reads: delivering
/// `a` and then `b` yields, over the two steps together, exactly the messages
/// of `a + b`, and leaves the same unconsumed suffix behind.
pub proof fn lemma_split_delivery(a: Seq<u8>, b: Seq<u8>)
    ensures
        msgs_of(a + b) == msgs_of(a) + msgs_of(rest_of(a) + b),
        rest_of(a + b) == rest_of(rest_of(a) + b),
    decreases a.len(),
{
    match end_from(scan_init(), a) {
        None => {
            assert(rest_of(a) == a);
            assert(msgs_of(a) + msgs_of(a + b) =~= msgs_of(a + b));
        },
        Some(k) => {
            lemma_end_from_bounds(scan_init(), a);
            lemma_end_from_extend(scan_init(), a, b);
            lemma_end_from_bounds(scan_init(), a + b);
            assert((a + b).take(k) =~= a.take(k));
            assert((a + b).skip(k) =~= a.skip(k) + b);
            lemma_split_delivery(a.skip(k), b);
            assert(msgs_of(a + b) =~= msgs_of(a) + msgs_of(rest_of(a) + b));
        },
    }
}

/// Extraction is exhaustive: the retained suffix never holds a complete
/// message, so re-running on it alone finds nothing new.
pub proof fn lemma_rest_incomplete(s: Seq<u8>)
    ensures
        end_from(scan_init(), rest_of(s)) is None,
        msgs_of(rest_of(s)) == Seq::<Seq<u8>>::empty(),
        rest_of(rest_of(s)) == rest_of(s),
    decreases s.len(),
{
    match end_from(scan_init(), s) {
        None => {},
        Some(k) => {
            lemma_end_from_bounds(scan_init(), s);
            lemma_rest_incomplete(s.skip(k));
        },
    }
}

/// All the bytes of a batch of messages, in order.
pub open spec fn concat_msgs(ms: Seq<Seq<u8>>) -> Seq<u8>
    decreases ms.len(),
{
    if ms.len() == 0 {
        Seq::empty()
    } else {
        ms[0] + concat_msgs(ms.skip(1))
    }
}

/// Framing loses and invents nothing: the extracted messages followed by the
/// retained suffix are exactly the original bytes, so no byte of an
/// incomplete message is ever claimed as consumed.
pub proof fn lemma_no_bytes_lost(s: Seq<u8>)
    ensures
        concat_msgs(msgs_of(s)) + rest_of(s) == s,
    decreases s.len(),
{
    match end_from(scan_init(), s) {
        None => {
            assert(concat_msgs(msgs_of(s)) + rest_of(s) =~= s);
        },
        Some(k) => {
            lemma_end_from_bounds(scan_init(), s);
            lemma_no_bytes_lost(s.skip(k));
            assert(msgs_of(s)[0] == s.take(k));
            assert(msgs_of(s).skip(1) =~= msgs_of(s.skip(k)));
            assert(concat_msgs(msgs_of(s)) == s.take(k) + concat_msgs(msgs_of(s.skip(k))));
            let inner = concat_msgs(msgs_of(s.skip(k))) + rest_of(s.skip(k));
            assert(inner == s.skip(k));
            assert(concat_msgs(msgs_of(s)) + rest_of(s) =~= s.take(k) + inner);
            assert(s.take(k) + s.skip(k) =~= s);
        },
    }
}

/// Pipelining: request texts that each frame as one complete message,
/// delivered concatenated in one read, are dispatched one per text, in
/// arrival order, and leave nothing behind.
pub proof fn lemma_pipelining(texts: Seq<Seq<u8>>)
    requires
        forall|i: int|
            0 <= i < texts.len() ==> msgs_of(#[trigger] texts[i]) == seq![texts[i]] && rest_of(
                texts[i],
            ) == Seq::<u8>::empty(),
    ensures
        msgs_of(concat_msgs(texts)) == texts,
        rest_of(concat_msgs(texts)) == Seq::<u8>::empty(),
    decreases texts.len(),
{
    if texts.len() == 0 {
        assert(msgs_of(concat_msgs(texts)) =~= texts);
    } else {
        let a = texts[0];
        let tail = concat_msgs(texts.skip(1));
        assert(forall|i: int|
            0 <= i < texts.skip(1).len() ==> texts.skip(1)[i] == texts[i + 1]);
        lemma_pipelining(texts.skip(1));
        lemma_split_delivery(a, tail);
        assert(msgs_of(a) == seq![a]);
        assert(rest_of(a) + tail =~= tail);
        assert(msgs_of(concat_msgs(texts)) == seq![a] + texts.skip(1));
        assert(seq![a] + texts.skip(1) =~= texts);
    }
}

/// Extracts every complete message from `buf`, in order, and returns them
/// together with the unconsumed trailing bytes.  Re-running on that remainder
/// plus later bytes finds exactly the remaining messages
/// (`lemma_split_delivery`); no byte of an incomplete message is consumed.
pub fn extract_messages(buf: &Vec<u8>) -> (r: (Vec<Vec<u8>>, Vec<u8>))
    ensures
        r.0.deep_view() == msgs_of(buf@),
        r.1@ == rest_of(buf@),
{
    let ghost all = buf@;
    let mut msgs: Vec<Vec<u8>> = Vec::new();
    let mut pos: usize = 0;
    let mut i: usize = 0;
    let mut depth: usize = 0;
    let mut in_str: bool = false;
    let mut esc: bool = false;
    let mut open: bool = false;
    proof {
        assert(all.subrange(0, all.len() as int) =~= all);
        assert(msgs.deep_view() =~= Seq::<Seq<u8>>::empty());
        assert(msgs.deep_view() + msgs_of(all) =~= msgs_of(all));
        assert(all.subrange(0, 0) =~= Seq::<u8>::empty());
    }
    while i < buf.len()
        invariant
            pos <= i <= buf.len(),
            all == buf@,
            depth <= i - pos,
            (ScanState { depth: depth as nat, in_str, esc, open })
                == scan_seq(scan_init(), all.subrange(pos as int, i as int)),
            end_from(scan_init(), all.subrange(pos as int, i as int)) is None,
            msgs_of(all) == msgs.deep_view()
                + msgs_of(all.subrange(pos as int, all.len() as int)),
            rest_of(all) == rest_of(all.subrange(pos as int, all.len() as int)),
        decreases buf.len() - i,
    {
        let b = buf[i];
        let ghost seg = all.subrange(pos as int, i as int);
        let ghost st = scan_seq(scan_init(), seg);
        proof {
            assert(all.subrange(pos as int, i as int + 1) =~= seg.push(b));
            lemma_scan_seq_push(scan_init(), seg, b);
            lemma_end_from_push(scan_init(), seg, b);
        }
        if in_str {
            if esc {
                esc = false;
            } else if b == 0x5c {
                esc = true;
            } else if b == 0x22 {
                in_str = false;
            }
        } else {
            if b == 0x22 {
                in_str = true;
            } else if b == 0x7b {
                depth = depth + 1;
                open = true;
            } else if b == 0x7d {
                if depth > 0 {
                    depth = depth - 1;
                }
            }
        }
        proof {
            assert((ScanState { depth: depth as nat, in_str, esc, open })
                == scan_step(st, b));
        }
        if open && depth == 0 && !in_str {
            let ghost seg2 = all.subrange(pos as int, i as int + 1);
            let ghost tail = all.subrange(pos as int, all.len() as int);
            let ghost k = i + 1 - pos;
            proof {
                assert(end_from(scan_init(), seg2) == Some(k as int));
                assert(tail =~= seg2 + all.subrange(i as int + 1, all.len() as int));
                lemma_end_from_extend(scan_init(), seg2, all.subrange(i as int + 1, all.len() as int));
                assert(end_from(scan_init(), tail) == Some(k as int));
                assert(tail.take(k as int) =~= seg2);
                assert(tail.skip(k as int) =~= all.subrange(i as int + 1, all.len() as int));
            }
            let msg = vstd::slice::slice_to_vec(vstd::slice::slice_subrange(buf.as_slice(), pos, i + 1));
            let ghost old_msgs = msgs.deep_view();
            proof {
                assert(msg.deep_view() =~= msg@);
            }
            msgs.push(msg);
            proof {
                assert(msgs.deep_view() =~= old_msgs.push(seg2));
                assert(msgs_of(tail) == seq![seg2]
                    + msgs_of(all.subrange(i as int + 1, all.len() as int)));
                assert(msgs_of(all) =~= msgs.deep_view()
                    + msgs_of(all.subrange(i as int + 1, all.len() as int)));
            }
            pos = i + 1;
            depth = 0;
            in_str = false;
            esc = false;
            open = false;
            proof {
                assert(all.subrange(pos as int, pos as int) =~= Seq::<u8>::empty());
            }
        }
        i = i + 1;
    }
    let ghost tail = all.subrange(pos as int, all.len() as int);
    proof {
        assert(msgs_of(tail) =~= Seq::<Seq<u8>>::empty());
        assert(msgs.deep_view() + msgs_of(tail) =~= msgs.deep_view());
        assert(rest_of(tail) == tail);
    }
    let leftover = vstd::slice::slice_to_vec(vstd::slice::slice_subrange(buf.as_slice(), pos, buf.len()));
    (msgs, leftover)
}

} // verus!
