use vstd::prelude::*;

verus! {

/// A typed server reply, mirroring the wire types of the protocol.
///
/// `Simple` is a one-line acknowledgement, `Error` carries a stable
/// category and a detail message, `BulkString` is a binary-safe payload,
/// `Nil` stands for an absent value, and `Integer` carries counts and
/// boolean results as `0`/`1`.
pub enum Response {
    Simple(Vec<u8>),
    Error { category: Vec<u8>, message: Vec<u8> },
    BulkString(Vec<u8>),
    Nil,
    Integer(i64),
}

/// The mathematical value of a `Response`: the same variants over byte
/// sequences and unbounded integers.
pub enum ResponseView {
    Simple(Seq<u8>),
    Error { category: Seq<u8>, message: Seq<u8> },
    BulkString(Seq<u8>),
    Nil,
    Integer(int),
}

impl View for Response {
    type V = ResponseView;

    open spec fn view(&self) -> ResponseView {
        match self {
            Response::Simple(m) => ResponseView::Simple(m@),
            Response::Error { category, message } => (ResponseView::Error {
                category: category@,
                message: message@,
            }),
            Response::BulkString(b) => ResponseView::BulkString(b@),
            Response::Nil => ResponseView::Nil,
            Response::Integer(n) => ResponseView::Integer(*n as int),
        }
    }
}

} // verus!
