//! Interpreting the provider's answer: a status code and raw body bytes
//! become either the generated text or one error of the taxonomy.

use vstd::prelude::*;

verus! {

use vstd::utf8::valid_utf8;
use crate::textual::lemma_response_contents_are_text;
use crate::errors::GenerateError;
use crate::grammar::spec_parse_response;
use crate::parser::parse_response;
use crate::parser::vecs_view;
use crate::unicode::check_utf8;

/// Whether an HTTP status code counts as success.
pub open spec fn is_success_status(status: u16) -> bool {
    200 <= status < 300
}

/// What a success body yields: the content bytes of each choice, or `None`
/// when the body is not valid UTF-8 or does not match the response shape.
pub open spec fn spec_response_choices(body: Seq<u8>) -> Option<Seq<Seq<u8>>> {
    if valid_utf8(body) {
        spec_parse_response(body)
    } else {
        None
    }
}

/// Maps the provider's answer to the outcome of the generation:
/// a non-success status fails with `RemoteError` carrying the status and the
/// body text; a success body that does not parse fails with
/// `ResponseParseFailure`; a well-formed body with no choices fails with
/// `EmptyResult`; otherwise the content of the first choice is returned
/// exactly as received. What is returned is always valid UTF-8 text.
#[verifier::rlimit(100)]
#[verifier::spinoff_prover]
pub fn interpret_response(status: u16, body: Vec<u8>) -> (r: Result<Vec<u8>, GenerateError>)
    ensures
        !is_success_status(status) ==> r == Err::<Vec<u8>, GenerateError>(
            GenerateError::RemoteError(status, body),
        ),
        is_success_status(status) ==> match spec_response_choices(body@) {
            None => r == Err::<Vec<u8>, GenerateError>(GenerateError::ResponseParseFailure),
            Some(cs) => if cs.len() == 0 {
                r == Err::<Vec<u8>, GenerateError>(GenerateError::EmptyResult)
            } else {
                r matches Ok(v) && v@ == cs[0]
            },
        },
        r matches Ok(v) ==> valid_utf8(v@),
{
    if !(200 <= status && status < 300) {
        return Err(GenerateError::RemoteError(status, body));
    }
    if !check_utf8(body.as_slice()) {
        return Err(GenerateError::ResponseParseFailure);
    }
    match parse_response(body.as_slice()) {
        None => Err(GenerateError::ResponseParseFailure),
        Some(choices) => {
            if choices.len() == 0 {
                Err(GenerateError::EmptyResult)
            } else {
                proof {
                    assert(valid_utf8(choices@[0]@)) by {
                        lemma_response_contents_are_text(body@);
                        assert(spec_parse_response(body@) == Some(vecs_view(choices)));
                        match spec_parse_response(body@) {
                            None => {
                                assert(false);
                            },
                            Some(cs) => {
                                assert(cs == vecs_view(choices));
                                assert(0 < cs.len());
                                assert(valid_utf8(cs[0]));
                                assert(cs[0] == choices@[0]@);
                            },
                        }
                    }
                }
                let mut choices = choices;
                let first = choices.remove(0);
                Ok(first)
            }
        },
    }
}

} // verus!
