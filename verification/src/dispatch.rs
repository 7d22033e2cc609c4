use vstd::prelude::*;
use crate::command::{Command, CommandView};
use crate::decoder::{decode, decode_spec, DecodeResult, DecodeView};
use crate::encoder::{encode, encoded, error_response, ok_msg};
use crate::response::{Response, ResponseView};
use crate::store::Store;

verus! {

/// The bytes of the error category `UNSUPPORTED_COMMAND`.
pub open spec fn cat_unsupported() -> Seq<u8> {
    seq![
        85u8, 78u8, 83u8, 85u8, 80u8, 80u8, 79u8, 82u8, 84u8, 69u8, 68u8, 95u8, 67u8, 79u8,
        77u8, 77u8, 65u8, 78u8, 68u8,
    ]
}

/// The bytes of the error category `WRONG_ARGS`.
pub open spec fn cat_wrong_args() -> Seq<u8> {
    seq![87u8, 82u8, 79u8, 78u8, 71u8, 95u8, 65u8, 82u8, 71u8, 83u8]
}

/// The bytes of the error category `INVALID_REQUEST`.
pub open spec fn cat_invalid_request() -> Seq<u8> {
    seq![73u8, 78u8, 86u8, 65u8, 76u8, 73u8, 68u8, 95u8, 82u8, 69u8, 81u8, 85u8, 69u8, 83u8,
        84u8]
}

/// The bytes of the framing-error detail message `malformed frame`.
pub open spec fn msg_malformed() -> Seq<u8> {
    seq![
        109u8, 97u8, 108u8, 102u8, 111u8, 114u8, 109u8, 101u8, 100u8, 32u8, 102u8, 114u8,
        97u8, 109u8, 101u8,
    ]
}

/// The category `UNSUPPORTED_COMMAND` as an owned byte string.
pub fn unsupported_category() -> (r: Vec<u8>)
    ensures
        r@ == cat_unsupported(),
{
    let mut v: Vec<u8> = Vec::new();
    v.push(85);
    v.push(78);
    v.push(83);
    v.push(85);
    v.push(80);
    v.push(80);
    v.push(79);
    v.push(82);
    v.push(84);
    v.push(69);
    v.push(68);
    v.push(95);
    v.push(67);
    v.push(79);
    v.push(77);
    v.push(77);
    v.push(65);
    v.push(78);
    v.push(68);
    assert(v@ =~= cat_unsupported());
    v
}

/// The category `WRONG_ARGS` as an owned byte string.
pub fn wrong_args_category() -> (r: Vec<u8>)
    ensures
        r@ == cat_wrong_args(),
{
    let mut v: Vec<u8> = Vec::new();
    v.push(87);
    v.push(82);
    v.push(79);
    v.push(78);
    v.push(71);
    v.push(95);
    v.push(65);
    v.push(82);
    v.push(71);
    v.push(83);
    assert(v@ =~= cat_wrong_args());
    v
}

/// The category `INVALID_REQUEST` as an owned byte string.
pub fn invalid_request_category() -> (r: Vec<u8>)
    ensures
        r@ == cat_invalid_request(),
{
    let mut v: Vec<u8> = Vec::new();
    v.push(73);
    v.push(78);
    v.push(86);
    v.push(65);
    v.push(76);
    v.push(73);
    v.push(68);
    v.push(95);
    v.push(82);
    v.push(69);
    v.push(81);
    v.push(85);
    v.push(69);
    v.push(83);
    v.push(84);
    assert(v@ =~= cat_invalid_request());
    v
}

/// The detail message `malformed frame` as an owned byte string.
pub fn malformed_message() -> (r: Vec<u8>)
    ensures
        r@ == msg_malformed(),
{
    let mut v: Vec<u8> = Vec::new();
    v.push(109);
    v.push(97);
    v.push(108);
    v.push(102);
    v.push(111);
    v.push(114);
    v.push(109);
    v.push(101);
    v.push(100);
    v.push(32);
    v.push(102);
    v.push(114);
    v.push(97);
    v.push(109);
    v.push(101);
    assert(v@ =~= msg_malformed());
    v
}

/// The store contents after one command: `SET` upserts, `DEL` removes,
/// everything else leaves the store unchanged.
pub open spec fn store_after(pre: Map<Seq<u8>, Seq<u8>>, cmd: CommandView) -> Map<Seq<u8>, Seq<u8>> {
    match cmd {
        CommandView::Put { key, value } => pre.insert(key, value),
        CommandView::Del { key } => pre.remove(key),
        _ => pre,
    }
}

/// The response each command earns against the store contents `pre`:
/// `SET` and `QUIT` acknowledge, `GET` answers the value or `Nil`,
/// `DEL` and `EXISTS` answer `1`/`0`, an unrecognized name earns an
/// `UNSUPPORTED_COMMAND` error. Absence of a key is never an error.
pub open spec fn response_of(pre: Map<Seq<u8>, Seq<u8>>, cmd: CommandView) -> ResponseView {
    match cmd {
        CommandView::Put { key, value } => ResponseView::Simple(ok_msg()),
        CommandView::Get { key } => if pre.contains_key(key) {
            ResponseView::BulkString(pre[key])
        } else {
            ResponseView::Nil
        },
        CommandView::Del { key } => ResponseView::Integer(
            if pre.contains_key(key) {
                1int
            } else {
                0int
            },
        ),
        CommandView::Exists { key } => ResponseView::Integer(
            if pre.contains_key(key) {
                1int
            } else {
                0int
            },
        ),
        CommandView::Quit => ResponseView::Simple(ok_msg()),
        CommandView::Unrecognized { name } => (ResponseView::Error {
            category: cat_unsupported(),
            message: name,
        }),
    }
}

/// Only `QUIT` asks the caller to close the connection.
pub open spec fn closes(cmd: CommandView) -> bool {
    cmd is Quit
}

/// The dispatcher's whole contract: executing `cmd` against a store
/// holding `pre` leaves `store_after`, answers `response_of`, and
/// signals closing exactly for `QUIT`.
pub open spec fn dispatch_post(
    pre: Map<Seq<u8>, Seq<u8>>,
    cmd: CommandView,
    post: Map<Seq<u8>, Seq<u8>>,
    resp: ResponseView,
    close: bool,
) -> bool {
    &&& post == store_after(pre, cmd)
    &&& resp == response_of(pre, cmd)
    &&& close == closes(cmd)
}

/// The `OK` acknowledgement as a response value.
fn ok_reply() -> (r: Response)
    ensures
        r@ == ResponseView::Simple(ok_msg()),
{
    let mut m: Vec<u8> = Vec::new();
    m.push(79);
    m.push(75);
    assert(m@ =~= ok_msg());
    Response::Simple(m)
}

/// Applies `SET`: unconditionally upserts, always acknowledges.
pub fn set_command(store: &mut Store, key: Vec<u8>, value: Vec<u8>) -> (r: Response)
    requires
        old(store).wf(),
    ensures
        final(store).wf(),
        dispatch_post(
            old(store)@,
            (CommandView::Put { key: key@, value: value@ }),
            final(store)@,
            r@,
            false,
        ),
{
    store.set(key, value);
    ok_reply()
}

/// Applies `GET`: answers the stored value, or `Nil` when absent.
pub fn get_command(store: &Store, key: &[u8]) -> (r: Response)
    requires
        store.wf(),
    ensures
        dispatch_post(store@, (CommandView::Get { key: key@ }), store@, r@, false),
{
    match store.get(key) {
        Some(v) => Response::BulkString(v),
        None => Response::Nil,
    }
}

/// Applies `DEL`: removes the key if present; answers `1` if it was
/// removed, `0` if it was absent.
pub fn del_command(store: &mut Store, key: &[u8]) -> (r: Response)
    requires
        old(store).wf(),
    ensures
        final(store).wf(),
        dispatch_post(old(store)@, (CommandView::Del { key: key@ }), final(store)@, r@, false),
{
    let removed = store.delete(key);
    Response::Integer(if removed { 1 } else { 0 })
}

/// Applies `EXISTS`: answers `1`/`0` without mutating.
pub fn exists_command(store: &Store, key: &[u8]) -> (r: Response)
    requires
        store.wf(),
    ensures
        dispatch_post(store@, (CommandView::Exists { key: key@ }), store@, r@, false),
{
    let present = store.exists_key(key);
    Response::Integer(if present { 1 } else { 0 })
}

/// Applies `QUIT`: acknowledges; the caller closes the connection.
pub fn quit_command() -> (r: Response)
    ensures
        r@ == ResponseView::Simple(ok_msg()),
{
    ok_reply()
}

/// Executes one command against the store. The boolean of the result
/// signals that the connection should close after the response is
/// flushed; the response itself never carries that signal.
pub fn dispatch(store: &mut Store, cmd: Command) -> (r: (Response, bool))
    requires
        old(store).wf(),
    ensures
        final(store).wf(),
        dispatch_post(old(store)@, cmd@, final(store)@, r.0@, r.1),
{
    match cmd {
        Command::Put { key, value } => {
            let resp = set_command(store, key, value);
            (resp, false)
        },
        Command::Get { key } => {
            let resp = get_command(store, key.as_slice());
            (resp, false)
        },
        Command::Del { key } => {
            let resp = del_command(store, key.as_slice());
            (resp, false)
        },
        Command::Exists { key } => {
            let resp = exists_command(store, key.as_slice());
            (resp, false)
        },
        Command::Quit => (quit_command(), true),
        Command::Unrecognized { name } => {
            let category = unsupported_category();
            (Response::Error { category, message: name }, false)
        },
    }
}

/// Outcome of processing the front of a connection's read buffer.
pub enum Processed {
    NeedMore,
    Done { response: Vec<u8>, consumed: usize, close: bool },
}

/// Decodes one frame from the front of `buf`, executes it, and encodes
/// the reply.
///
/// An incomplete frame is `NeedMore`: nothing is consumed and the store
/// is untouched; the caller keeps the buffer and appends future reads.
/// A decoded command is executed and `consumed` says exactly how many
/// bytes to discard, so pipelined frames behind it stay intact. A known
/// command with the wrong argument count earns a `WRONG_ARGS` error and
/// the connection stays open. A malformed frame earns an
/// `INVALID_REQUEST` error and `close` asks the caller to drop the
/// connection, since resynchronization inside a corrupt stream is not
/// safe.
pub fn process_request(store: &mut Store, buf: &[u8]) -> (r: Processed)
    requires
        old(store).wf(),
    ensures
        final(store).wf(),
        (match decode_spec(buf@) {
            DecodeView::NeedMore => r is NeedMore && final(store)@ == old(store)@,
            DecodeView::Decoded { command, consumed } => (r matches Processed::Done {
                response,
                consumed: c,
                close,
            } && c == consumed && final(store)@ == store_after(old(store)@, command) && response@
                == encoded(response_of(old(store)@, command)) && close == closes(command)),
            DecodeView::ArityError { name, consumed } => (r matches Processed::Done {
                response,
                consumed: c,
                close,
            } && c == consumed && final(store)@ == old(store)@ && response@ == encoded(
                ResponseView::Error { category: cat_wrong_args(), message: name },
            ) && !close),
            DecodeView::Malformed => (r matches Processed::Done {
                response,
                consumed: c,
                close,
            } && c == 0 && final(store)@ == old(store)@ && response@ == encoded(
                ResponseView::Error { category: cat_invalid_request(), message: msg_malformed() },
            ) && close),
        }),
{
    match decode(buf) {
        DecodeResult::NeedMore => Processed::NeedMore,
        DecodeResult::Malformed => {
            let category = invalid_request_category();
            let message = malformed_message();
            let response = error_response(category.as_slice(), message.as_slice());
            Processed::Done { response, consumed: 0, close: true }
        },
        DecodeResult::ArityError { name, consumed } => {
            let category = wrong_args_category();
            let response = error_response(category.as_slice(), name.as_slice());
            Processed::Done { response, consumed, close: false }
        },
        DecodeResult::Decoded { command, consumed } => {
            let (resp, close) = dispatch(store, command);
            let response = encode(&resp);
            Processed::Done { response, consumed, close }
        },
    }
}

} // verus!
