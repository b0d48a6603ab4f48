//! What the TCP server sends back: an outcome or an error, with its byte form.

use vstd::prelude::*;
use crate::server::errors::ServerError;
use crate::storage::executor::outcome::{spec_outcome_bytes, spec_parse_outcome, Outcome, OutcomeError, OutcomeView};
use crate::utils::bytes::{append_bytes, tail_bytes};

verus! {

pub enum TcpResponse {
    Outcome(Outcome),
    ServerError(ServerError),
}

#[derive(Debug, Clone, PartialEq, Eq)]
pub enum TcpResponseError {
    OutcomeError(OutcomeError),
    ServerError(ServerError),
}

/// A response as plain values.
pub enum TcpResponseView {
    Outcome(OutcomeView),
    ServerError(ServerError),
}

impl View for TcpResponse {
    type V = TcpResponseView;

    open spec fn view(&self) -> TcpResponseView {
        match self {
            TcpResponse::Outcome(o) => TcpResponseView::Outcome(o@),
            TcpResponse::ServerError(e) => TcpResponseView::ServerError(*e),
        }
    }
}

/// The byte form of a response: `0x00` and the outcome's, or `0x01` and the error's.
pub open spec fn spec_response_bytes(r: TcpResponseView) -> Seq<u8> {
    match r {
        TcpResponseView::Outcome(o) => seq![0x00u8] + spec_outcome_bytes(o),
        TcpResponseView::ServerError(e) => seq![0x01u8] + e.spec_marshal(),
    }
}

/// What `TcpResponse::parse` gives for `data`: after `0x00` an outcome, after any other byte
/// an error; `None` where it would read past the end.
pub open spec fn spec_parse_response(data: Seq<u8>) -> Option<Result<(TcpResponseView, nat), TcpResponseError>> {
    if data.len() == 0 {
        None
    } else if data[0] == 0x00 {
        match spec_parse_outcome(data.subrange(1, data.len() as int)) {
            None => None,
            Some(Err(e)) => Some(Err(TcpResponseError::OutcomeError(e))),
            Some(Ok((o, n))) => Some(Ok((TcpResponseView::Outcome(o), 1 + n))),
        }
    } else {
        match ServerError::spec_parse(data.subrange(1, data.len() as int)) {
            None => None,
            Some((e, n)) => Some(Ok((TcpResponseView::ServerError(e), 1 + n))),
        }
    }
}

impl TcpResponse {
    pub fn marshal(&self) -> (result: Vec<u8>)
        ensures
            result@ == spec_response_bytes(self@),
    {
        match self {
            TcpResponse::Outcome(outcome) => {
                let mut result = vec![0x00u8];
                append_bytes(&mut result, &outcome.marshal());
                result
            },
            TcpResponse::ServerError(error) => {
                let mut result = vec![0x01u8];
                append_bytes(&mut result, &error.marshal());
                result
            },
        }
    }

    /// Reads the response at the start of `data`; see `spec_parse_response`.
    pub fn parse(data: &[u8]) -> (result: Result<(TcpResponse, usize), TcpResponseError>)
        requires
            spec_parse_response(data@) is Some,
        ensures
            match result {
                Ok((r, n)) => spec_parse_response(data@) == Some(Ok::<(TcpResponseView, nat), TcpResponseError>((r@, n as nat))),
                Err(e) => spec_parse_response(data@) == Some(Err::<(TcpResponseView, nat), TcpResponseError>(e)),
            },
    {
        let _ = data.len();
        let rest = tail_bytes(data, 1);
        if data[0] == 0x00 {
            match Outcome::parse_checked(rest) {
                Some(Ok((outcome, n))) => Ok((TcpResponse::Outcome(outcome), 1 + n)),
                Some(Err(e)) => Err(TcpResponseError::OutcomeError(e)),
                None => {
                    assert(false);
                    Err(TcpResponseError::ServerError(ServerError::ParseServerErrorError))
                },
            }
        } else {
            match ServerError::parse(rest) {
                Ok((error, n)) => {
                    assert(n <= rest@.len()) by {
                        crate::server::error_widths::lemma_server_error_width(rest@);
                    }
                    Ok((TcpResponse::ServerError(error), 1 + n))
                },
                Err(e) => Err(TcpResponseError::ServerError(e)),
            }
        }
    }
}

/// A response's byte form reads back as the response, for outcomes and errors whose own byte
/// forms read back.
pub proof fn lemma_response_roundtrip(r: TcpResponseView, rest: Seq<u8>)
    requires
        r matches TcpResponseView::Outcome(o) ==> crate::storage::executor::outcome_laws::outcome_wf(o),
        r matches TcpResponseView::ServerError(e) ==> ServerError::spec_parse(e.spec_marshal() + rest) == Some((e, e.spec_marshal().len())),
    ensures
        spec_parse_response(spec_response_bytes(r) + rest) == Some(
            Ok::<(TcpResponseView, nat), TcpResponseError>((r, spec_response_bytes(r).len())),
        ),
{
    let d = spec_response_bytes(r) + rest;
    match r {
        TcpResponseView::Outcome(o) => {
            assert(d.subrange(1, d.len() as int) =~= spec_outcome_bytes(o) + rest);
            crate::storage::executor::outcome_laws::lemma_outcome_roundtrip(o, rest);
        },
        TcpResponseView::ServerError(e) => {
            assert(d.subrange(1, d.len() as int) =~= e.spec_marshal() + rest);
        },
    }
}

} // verus!
