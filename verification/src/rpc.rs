//! The boundary to the message-handling collaborator, which turns one
//! complete request text into at most one response text (none for a
//! notification).  What a handler answers is its own affair, so nothing is
//! assumed about a single answer; everything the library promises — one
//! answer slot per request, responses concatenated in request order, silence
//! for notifications — is proved here around the calls.
use vstd::prelude::*;

verus! {

/// The message-handling collaborator.  An implementation processes one
/// complete request text synchronously and returns the response text, or
/// nothing when the request is a notification or unreadable.  The library
/// assumes nothing about a single answer beyond this shape.
pub trait RequestHandler {
    /// Handles one complete request text.
    fn handle(&self, msg: &Vec<u8>) -> Option<Vec<u8>>;
}

/// Hands every message of one batch to the handler, in arrival order, and
/// collects one answer slot per message: `None` where the message was a
/// notification, the response bytes otherwise.
pub fn respond_all<H: RequestHandler>(handler: &H, msgs: &Vec<Vec<u8>>) -> (rs: Vec<
    Option<Vec<u8>>,
>)
    ensures
        rs@.len() == msgs@.len(),
{
    let mut rs: Vec<Option<Vec<u8>>> = Vec::new();
    let mut i: usize = 0;
    while i < msgs.len()
        invariant
            i <= msgs@.len(),
            rs@.len() == i,
        decreases msgs@.len() - i,
    {
        rs.push(handler.handle(&msgs[i]));
        i = i + 1;
    }
    rs
}

/// The bytes a batch of answer slots sends back: the responses that exist,
/// concatenated in request order; notifications contribute nothing.
pub open spec fn concat_responses_spec(rs: Seq<Option<Seq<u8>>>) -> Seq<u8>
    decreases rs.len(),
{
    if rs.len() == 0 {
        Seq::empty()
    } else {
        (match rs[0] {
            Some(v) => v,
            None => Seq::empty(),
        }) + concat_responses_spec(rs.skip(1))
    }
}

/// Concatenates one batch's responses in request order.
pub fn concat_responses(rs: &Vec<Option<Vec<u8>>>) -> (out: Vec<u8>)
    ensures
        out@ == concat_responses_spec(rs.deep_view()),
{
    let mut out: Vec<u8> = Vec::new();
    let mut i: usize = 0;
    while i < rs.len()
        invariant
            i <= rs@.len(),
            out@ == concat_responses_spec(rs.deep_view().take(i as int)),
        decreases rs@.len() - i,
    {
        match &rs[i] {
            Some(v) => {
                let mut piece = vstd::slice::slice_to_vec(v.as_slice());
                out.append(&mut piece);
            },
            None => {},
        }
        proof {
            lemma_concat_responses_take_step(rs.deep_view(), i as int);
        }
        i = i + 1;
    }
    proof {
        assert(rs.deep_view().take(rs@.len() as int) =~= rs.deep_view());
    }
    out
}

/// Taking one more answer slot appends exactly that slot's bytes.
proof fn lemma_concat_responses_take_step(rs: Seq<Option<Seq<u8>>>, i: int)
    requires
        0 <= i < rs.len(),
    ensures
        concat_responses_spec(rs.take(i + 1)) == concat_responses_spec(rs.take(i))
            + (match rs[i] {
            Some(v) => v,
            None => Seq::<u8>::empty(),
        }),
    decreases i,
{
    if i == 0 {
        assert(rs.take(1).skip(1) =~= Seq::<Option<Seq<u8>>>::empty());
        assert(rs.take(0) =~= Seq::<Option<Seq<u8>>>::empty());
        assert(rs.take(1)[0] == rs[0]);
        assert(concat_responses_spec(rs.take(1)) =~= concat_responses_spec(rs.take(0))
            + (match rs[0] {
            Some(v) => v,
            None => Seq::<u8>::empty(),
        }));
    } else {
        lemma_concat_responses_take_step(rs.skip(1), i - 1);
        assert(rs.take(i + 1)[0] == rs[0]);
        assert(rs.take(i)[0] == rs[0]);
        assert(rs.take(i + 1).skip(1) =~= rs.skip(1).take(i));
        assert(rs.take(i).skip(1) =~= rs.skip(1).take(i - 1));
        assert(rs.skip(1)[i - 1] == rs[i]);
    }
}

/// Notification semantics: a batch in which every request is a notification
/// produces no bytes at all for the write buffer.
pub proof fn lemma_all_notifications_silent(rs: Seq<Option<Seq<u8>>>)
    requires
        forall|i: int| 0 <= i < rs.len() ==> rs[i] is None,
    ensures
        concat_responses_spec(rs) == Seq::<u8>::empty(),
    decreases rs.len(),
{
    if rs.len() > 0 {
        lemma_all_notifications_silent(rs.skip(1));
        assert(concat_responses_spec(rs) =~= Seq::<u8>::empty());
    }
}

/// In a mixed batch the notifications still contribute nothing: dropping the
/// empty answer slots leaves the concatenation unchanged, so the client sees
/// only the ordinary responses, in their original order.
pub proof fn lemma_mixed_batch(rs: Seq<Option<Seq<u8>>>)
    ensures
        concat_responses_spec(rs) == concat_responses_spec(
            rs.filter(|o: Option<Seq<u8>>| o is Some),
        ),
    decreases rs.len(),
{
    reveal(Seq::filter);
    if rs.len() > 0 {
        lemma_mixed_batch(rs.drop_last());
        let kept = rs.filter(|o: Option<Seq<u8>>| o is Some);
        let kept_prefix = rs.drop_last().filter(|o: Option<Seq<u8>>| o is Some);
        lemma_concat_last(rs);
        if rs.last() is Some {
            assert(kept =~= kept_prefix.push(rs.last()));
            lemma_concat_last(kept);
            assert(kept.drop_last() =~= kept_prefix);
        } else {
            assert(kept =~= kept_prefix);
        }
    }
}

/// Splitting off the last answer slot splits the concatenation.
proof fn lemma_concat_last(rs: Seq<Option<Seq<u8>>>)
    requires
        rs.len() > 0,
    ensures
        concat_responses_spec(rs) == concat_responses_spec(rs.drop_last())
            + (match rs.last() {
            Some(v) => v,
            None => Seq::<u8>::empty(),
        }),
{
    lemma_concat_responses_take_step(rs, rs.len() - 1);
    assert(rs.take(rs.len() as int) =~= rs);
    assert(rs.take(rs.len() - 1) =~= rs.drop_last());
    assert(rs[rs.len() - 1] == rs.last());
}

} // verus!
