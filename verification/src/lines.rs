//! Whole files, line by line: every line is decoded or encoded on its own
//! and followed by a line terminator that the caller chooses.

use vstd::prelude::*;
use crate::decode::{decode_string, decode_text, DecodeError, DecodeFailure};
use crate::encode::{encode_string, encode_text, EncodeError};

verus! {

/// The texts of `lines`, as sequences of characters.
pub open spec fn line_texts(lines: Seq<String>) -> Seq<Seq<char>> {
    Seq::new(lines.len(), |i: int| lines[i]@)
}

/// What `lines` decode to: each line's text followed by `terminator`, in
/// order; or the failure of the first line that cannot be decoded.
pub open spec fn decode_lines_text(lines: Seq<Seq<char>>, terminator: Seq<char>) -> Result<
    Seq<char>,
    DecodeFailure,
>
    decreases lines.len(),
{
    if lines.len() == 0 {
        Ok(Seq::empty())
    } else {
        match decode_lines_text(lines.drop_last(), terminator) {
            Err(failure) => Err(failure),
            Ok(before) => match decode_text(lines.last()) {
                Err(failure) => Err(failure),
                Ok(text) => Ok(before + text + terminator),
            },
        }
    }
}

/// What `lines` encode to: each line's encoding followed by `terminator`,
/// in order.
pub open spec fn encode_lines_text(lines: Seq<Seq<char>>, terminator: Seq<char>) -> Seq<char>
    decreases lines.len(),
{
    if lines.len() == 0 {
        Seq::empty()
    } else {
        encode_lines_text(lines.drop_last(), terminator) + encode_text(lines.last()) + terminator
    }
}

/// Once the first lines fail to decode, so does every longer part of the
/// file, and with the same failure.
pub proof fn lemma_decode_lines_failure_stays(
    lines: Seq<Seq<char>>,
    terminator: Seq<char>,
    failed: int,
    upto: int,
)
    requires
        0 <= failed <= upto <= lines.len(),
        decode_lines_text(lines.take(failed), terminator) is Err,
    ensures
        decode_lines_text(lines.take(upto), terminator) == decode_lines_text(
            lines.take(failed),
            terminator,
        ),
    decreases upto - failed,
{
    if failed < upto {
        lemma_decode_lines_failure_stays(lines, terminator, failed, upto - 1);
        assert(lines.take(upto).drop_last() =~= lines.take(upto - 1));
    }
}

/// Decodes `lines` one by one and joins the results, each followed by
/// `terminator`. Stops at the first line that cannot be decoded and
/// returns its failure.
pub fn decode_lines(lines: &Vec<String>, terminator: &str) -> (r: Result<String, DecodeError>)
    ensures
        match r {
            Ok(text) => decode_lines_text(line_texts(lines@), terminator@) == Ok::<
                Seq<char>,
                DecodeFailure,
            >(text@),
            Err(e) => decode_lines_text(line_texts(lines@), terminator@) == Err::<
                Seq<char>,
                DecodeFailure,
            >(e@),
        },
{
    let ghost texts = line_texts(lines@);
    let mut res = String::new();
    let mut i: usize = 0;
    proof {
        assert(texts.take(0) =~= Seq::<Seq<char>>::empty());
    }
    while i < lines.len()
        invariant
            i <= lines.len(),
            texts == line_texts(lines@),
            decode_lines_text(texts.take(i as int), terminator@) == Ok::<
                Seq<char>,
                DecodeFailure,
            >(res@),
        decreases lines.len() - i,
    {
        proof {
            assert(texts.take(i + 1).drop_last() =~= texts.take(i as int));
            assert(texts.take(i + 1).last() == lines@[i as int]@);
        }
        match decode_string(lines[i].as_str()) {
            Ok(text) => {
                res.append(text.as_str());
                res.append(terminator);
            },
            Err(e) => {
                proof {
                    lemma_decode_lines_failure_stays(
                        texts,
                        terminator@,
                        i + 1,
                        texts.len() as int,
                    );
                    assert(texts.take(texts.len() as int) =~= texts);
                }
                return Err(e);
            },
        }
        i += 1;
    }
    proof {
        assert(texts.take(i as int) =~= texts);
    }
    Ok(res)
}

/// Encodes `lines` one by one and joins the results, each followed by
/// `terminator`. Never fails.
pub fn encode_lines(lines: &Vec<String>, terminator: &str) -> (r: Result<String, EncodeError>)
    ensures
        r matches Ok(text) && text@ == encode_lines_text(line_texts(lines@), terminator@),
{
    let ghost texts = line_texts(lines@);
    let mut res = String::new();
    let mut i: usize = 0;
    proof {
        assert(texts.take(0) =~= Seq::<Seq<char>>::empty());
    }
    while i < lines.len()
        invariant
            i <= lines.len(),
            texts == line_texts(lines@),
            res@ == encode_lines_text(texts.take(i as int), terminator@),
        decreases lines.len() - i,
    {
        proof {
            assert(texts.take(i + 1).drop_last() =~= texts.take(i as int));
            assert(texts.take(i + 1).last() == lines@[i as int]@);
        }
        match encode_string(lines[i].as_str()) {
            Ok(text) => {
                res.append(text.as_str());
                res.append(terminator);
            },
            Err(e) => {
                return Err(e);
            },
        }
        i += 1;
    }
    proof {
        assert(texts.take(i as int) =~= texts);
    }
    Ok(res)
}

} // verus!
