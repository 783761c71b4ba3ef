//! Rendering an error and its chain of causes as one human-readable
//! string, each cause's message separated from the next by "; ".

use vstd::prelude::*;

verus! {

use vstd::string::StringExecFns;

/// The error type of the unverified collaborators; opaque here, carried
/// through to be rendered.
#[verifier::external_type_specification]
#[verifier::external_body]
pub struct ExAnyhowError(anyhow::Error);

/// The messages joined by "; ": empty for no messages, otherwise the
/// first message followed by "; " and the rest.
pub open spec fn join_semicolon(msgs: Seq<Seq<char>>) -> Seq<char>
    decreases msgs.len(),
{
    if msgs.len() == 0 {
        Seq::empty()
    } else if msgs.len() == 1 {
        msgs[0]
    } else {
        msgs[0] + "; "@ + join_semicolon(msgs.drop_first())
    }
}

/// Appending one more message extends the joined text by "; " and the
/// message (or is just the message when nothing came before).
proof fn lemma_join_semicolon_push(msgs: Seq<Seq<char>>, m: Seq<char>)
    ensures
        join_semicolon(msgs.push(m)) == if msgs.len() == 0 {
            m
        } else {
            join_semicolon(msgs) + "; "@ + m
        },
    decreases msgs.len(),
{
    if msgs.len() == 0 {
        assert(msgs.push(m)[0] == m);
    } else {
        lemma_join_semicolon_push(msgs.drop_first(), m);
        assert(msgs.push(m).drop_first() =~= msgs.drop_first().push(m));
        if msgs.len() == 1 {
            assert(join_semicolon(msgs.drop_first().push(m)) == m);
            assert(join_semicolon(msgs) == msgs[0]);
        } else {
            assert((msgs[0] + "; "@ + (join_semicolon(msgs.drop_first()) + "; "@ + m)) =~= (msgs[0]
                + "; "@ + join_semicolon(msgs.drop_first()) + "; "@ + m));
        }
    }
}

/// Joins the given messages with "; " between them.
pub fn join_messages(msgs: &Vec<String>) -> (r: String)
    ensures
        r@ == join_semicolon(msgs.deep_view()),
{
    let ghost dv = msgs.deep_view();
    let mut r = String::new();
    let mut i: usize = 0;
    while i < msgs.len()
        invariant
            dv == msgs.deep_view(),
            dv.len() == msgs@.len(),
            forall|k: int| 0 <= k < dv.len() ==> dv[k] == msgs@[k]@,
            i <= msgs@.len(),
            r@ == join_semicolon(dv.take(i as int)),
        decreases msgs@.len() - i,
    {
        if i > 0 {
            r.append("; ");
        }
        r.append(msgs[i].as_str());
        proof {
            lemma_join_semicolon_push(dv.take(i as int), dv[i as int]);
            assert(dv.take(i as int).push(dv[i as int]) =~= dv.take(i + 1));
        }
        i += 1;
    }
    proof {
        assert(dv.take(dv.len() as int) =~= dv);
    }
    r
}

/// Relies on `anyhow::Error::chain`, which yields this error and then
/// each source in its cause chain, outermost first, so always at least
/// one item; each is rendered through its `Display` impl.
#[verifier::external_body]
fn chain_messages(err: &anyhow::Error) -> (msgs: Vec<String>)
    ensures
        msgs@.len() >= 1,
{
    err.chain().map(|e| e.to_string()).collect()
}

/// Renders an error and every cause in its chain as a single line, the
/// messages separated by "; ". The messages themselves come from the
/// unverified error values; whatever they are, the result is exactly
/// their "; "-join.
pub fn chained_errs_to_string(err: anyhow::Error) -> (r: String)
    ensures
        exists|msgs: Seq<Seq<char>>| msgs.len() >= 1 && r@ == join_semicolon(msgs),
{
    let msgs = chain_messages(&err);
    let r = join_messages(&msgs);
    proof {
        assert(msgs.deep_view().len() >= 1 && r@ == join_semicolon(msgs.deep_view()));
    }
    r
}

} // verus!
