use vstd::prelude::*;
use crate::bytes::{bytes_eq, copy_bytes};
use crate::command::{
    Command, CommandView, del_name, exists_name, get_name, name_del, name_exists, name_get,
    name_quit, name_set, quit_name, set_name,
};

verus! {

/// Largest count or length the decoder accepts in a frame header.
pub const MAX_FIELD: u64 = 536870912;

/// Outcome of reading a decimal number terminated by `\r\n`.
pub ghost enum NumScan {
    NeedMore,
    Bad,
    Done { value: nat, end: int },
}

/// Outcome of reading one bulk string `$<len>\r\n<bytes>\r\n`.
pub ghost enum BulkScan {
    NeedMore,
    Bad,
    Done { data: Seq<u8>, end: int },
}

/// Outcome of reading a run of bulk strings.
pub ghost enum ElemsScan {
    NeedMore,
    Bad,
    Done { elems: Seq<Seq<u8>>, end: int },
}

/// Outcome of reading one whole frame `*<count>\r\n` + bulk strings.
pub ghost enum FrameScan {
    NeedMore,
    Bad,
    Done { elems: Seq<Seq<u8>>, end: int },
}

/// An ASCII decimal digit.
pub open spec fn is_digit(b: u8) -> bool {
    48 <= b <= 57
}

/// Reads decimal digits from position `i` until `\r\n`. `acc` is the
/// value of the digits already read, `digits` how many there were.
/// A missing digit, a stray byte, or a value above `MAX_FIELD` is `Bad`;
/// running off the end of the buffer is `NeedMore`.
pub open spec fn scan_number(s: Seq<u8>, i: int, acc: nat, digits: nat) -> NumScan
    decreases s.len() - i,
{
    if i < 0 || i >= s.len() {
        NumScan::NeedMore
    } else if is_digit(s[i]) {
        let v: int = acc * 10 + s[i] - 48;
        if v > MAX_FIELD {
            NumScan::Bad
        } else {
            scan_number(s, i + 1, v as nat, digits + 1)
        }
    } else if s[i] == 13 {
        if digits == 0 {
            NumScan::Bad
        } else if i + 1 >= s.len() {
            NumScan::NeedMore
        } else if s[i + 1] == 10 {
            NumScan::Done { value: acc, end: i + 2 }
        } else {
            NumScan::Bad
        }
    } else {
        NumScan::Bad
    }
}

/// Reads one bulk string at position `i`: `$`, a length, then exactly
/// that many payload bytes, then `\r\n`.
pub open spec fn scan_bulk(s: Seq<u8>, i: int) -> BulkScan {
    if i < 0 || i >= s.len() {
        BulkScan::NeedMore
    } else if s[i] != 36 {
        BulkScan::Bad
    } else {
        match scan_number(s, i + 1, 0, 0) {
            NumScan::NeedMore => BulkScan::NeedMore,
            NumScan::Bad => BulkScan::Bad,
            NumScan::Done { value, end } => {
                if end + value + 2 > s.len() {
                    BulkScan::NeedMore
                } else if s[end + value] == 13 && s[end + value + 1] == 10 {
                    BulkScan::Done { data: s.subrange(end, end + value), end: end + value + 2 }
                } else {
                    BulkScan::Bad
                }
            },
        }
    }
}

/// Reads `count` bulk strings starting at position `i`.
pub open spec fn scan_elems(s: Seq<u8>, i: int, count: nat) -> ElemsScan
    decreases count,
{
    if count == 0 {
        ElemsScan::Done { elems: Seq::empty(), end: i }
    } else {
        match scan_bulk(s, i) {
            BulkScan::NeedMore => ElemsScan::NeedMore,
            BulkScan::Bad => ElemsScan::Bad,
            BulkScan::Done { data, end } => match scan_elems(s, end, (count - 1) as nat) {
                ElemsScan::NeedMore => ElemsScan::NeedMore,
                ElemsScan::Bad => ElemsScan::Bad,
                ElemsScan::Done { elems, end: e } => (ElemsScan::Done {
                    elems: seq![data] + elems,
                    end: e,
                }),
            },
        }
    }
}

/// Reads one whole frame from the start of the buffer: `*<count>\r\n`
/// followed by `count` bulk strings.
pub open spec fn scan_frame(s: Seq<u8>) -> FrameScan {
    if s.len() == 0 {
        FrameScan::NeedMore
    } else if s[0] != 42 {
        FrameScan::Bad
    } else {
        match scan_number(s, 1, 0, 0) {
            NumScan::NeedMore => FrameScan::NeedMore,
            NumScan::Bad => FrameScan::Bad,
            NumScan::Done { value, end } => match scan_elems(s, end, value) {
                ElemsScan::NeedMore => FrameScan::NeedMore,
                ElemsScan::Bad => FrameScan::Bad,
                ElemsScan::Done { elems, end: e } => (FrameScan::Done { elems, end: e }),
            },
        }
    }
}

/// A successful number scan ends after where it began and inside the
/// buffer, and never exceeds `MAX_FIELD`.
pub proof fn lemma_scan_number_bounds(s: Seq<u8>, i: int, acc: nat, digits: nat)
    requires
        0 <= i,
        acc <= MAX_FIELD,
    ensures
        (scan_number(s, i, acc, digits) matches NumScan::Done { value, end } ==> i + 2 <= end
            <= s.len() && value <= MAX_FIELD),
    decreases s.len() - i,
{
    if 0 <= i < s.len() {
        if is_digit(s[i]) {
            let v: int = acc * 10 + s[i] - 48;
            if v <= MAX_FIELD {
                lemma_scan_number_bounds(s, i + 1, v as nat, digits + 1);
            }
        }
    }
}

/// Extending the buffer never changes a finished number scan: `Done`
/// stays the same `Done`, `Bad` stays `Bad`.
pub proof fn lemma_scan_number_ext(s: Seq<u8>, t: Seq<u8>, i: int, acc: nat, digits: nat)
    requires
        0 <= i,
    ensures
        (scan_number(s, i, acc, digits) is Done ==> scan_number(s + t, i, acc, digits)
            == scan_number(s, i, acc, digits)),
        (scan_number(s, i, acc, digits) is Bad ==> scan_number(s + t, i, acc, digits)
            is Bad),
    decreases s.len() - i,
{
    if 0 <= i < s.len() {
        assert((s + t)[i] == s[i]);
        if is_digit(s[i]) {
            let v: int = acc * 10 + s[i] - 48;
            if v <= MAX_FIELD {
                lemma_scan_number_ext(s, t, i + 1, v as nat, digits + 1);
            }
        } else if s[i] == 13 && digits > 0 && i + 1 < s.len() {
            assert((s + t)[i + 1] == s[i + 1]);
        }
    }
}

/// A successful bulk scan ends after where it began and inside the buffer.
pub proof fn lemma_scan_bulk_bounds(s: Seq<u8>, i: int)
    requires
        0 <= i,
    ensures
        (scan_bulk(s, i) matches BulkScan::Done { data, end } ==> i + 4 <= end <= s.len()
            && data.len() <= MAX_FIELD),
{
    if 0 <= i < s.len() && s[i] == 36 {
        lemma_scan_number_bounds(s, i + 1, 0, 0);
    }
}

/// Extending the buffer never changes a finished bulk scan.
pub proof fn lemma_scan_bulk_ext(s: Seq<u8>, t: Seq<u8>, i: int)
    requires
        0 <= i,
    ensures
        (scan_bulk(s, i) is Done ==> scan_bulk(s + t, i) == scan_bulk(s, i)),
        (scan_bulk(s, i) is Bad ==> scan_bulk(s + t, i) is Bad),
{
    if 0 <= i < s.len() {
        assert((s + t)[i] == s[i]);
        if s[i] == 36 {
            lemma_scan_number_ext(s, t, i + 1, 0, 0);
            lemma_scan_number_bounds(s, i + 1, 0, 0);
            match scan_number(s, i + 1, 0, 0) {
                NumScan::Done { value, end } => {
                    if end + value + 2 <= s.len() {
                        assert((s + t)[end + value] == s[end + value]);
                        assert((s + t)[end + value + 1] == s[end + value + 1]);
                        assert((s + t).subrange(end, end + value) =~= s.subrange(
                            end,
                            end + value,
                        ));
                    }
                },
                _ => {},
            }
        }
    }
}

/// A successful run of bulk scans yields one element per bulk string and
/// ends inside the buffer.
pub proof fn lemma_scan_elems_bounds(s: Seq<u8>, i: int, count: nat)
    requires
        0 <= i <= s.len(),
    ensures
        (scan_elems(s, i, count) matches ElemsScan::Done { elems, end } ==> i <= end <= s.len()
            && elems.len() == count),
    decreases count,
{
    if count > 0 {
        lemma_scan_bulk_bounds(s, i);
        match scan_bulk(s, i) {
            BulkScan::Done { data, end } => {
                lemma_scan_elems_bounds(s, end, (count - 1) as nat);
            },
            _ => {},
        }
    }
}

/// Extending the buffer never changes a finished run of bulk scans.
pub proof fn lemma_scan_elems_ext(s: Seq<u8>, t: Seq<u8>, i: int, count: nat)
    requires
        0 <= i <= s.len(),
    ensures
        (scan_elems(s, i, count) is Done ==> scan_elems(s + t, i, count) == scan_elems(
            s,
            i,
            count,
        )),
        (scan_elems(s, i, count) is Bad ==> scan_elems(s + t, i, count) is Bad),
    decreases count,
{
    if count > 0 {
        lemma_scan_bulk_ext(s, t, i);
        lemma_scan_bulk_bounds(s, i);
        match scan_bulk(s, i) {
            BulkScan::Done { data, end } => {
                lemma_scan_elems_ext(s, t, end, (count - 1) as nat);
            },
            _ => {},
        }
    }
}

/// A successful frame scan consumes at least the header and at most the
/// whole buffer.
pub proof fn lemma_scan_frame_bounds(s: Seq<u8>)
    ensures
        (scan_frame(s) matches FrameScan::Done { elems, end } ==> 0 < end <= s.len()),
{
    if s.len() > 0 && s[0] == 42 {
        lemma_scan_number_bounds(s, 1, 0, 0);
        match scan_number(s, 1, 0, 0) {
            NumScan::Done { value, end } => {
                lemma_scan_elems_bounds(s, end, value);
            },
            _ => {},
        }
    }
}

/// Extending the buffer never changes a finished frame scan: a complete
/// frame decodes to the same elements with the same consumed count, and
/// a malformed one stays malformed.
pub proof fn lemma_scan_frame_ext(s: Seq<u8>, t: Seq<u8>)
    ensures
        (scan_frame(s) is Done ==> scan_frame(s + t) == scan_frame(s)),
        (scan_frame(s) is Bad ==> scan_frame(s + t) is Bad),
{
    if s.len() > 0 {
        assert((s + t)[0] == s[0]);
        if s[0] == 42 {
            lemma_scan_number_ext(s, t, 1, 0, 0);
            lemma_scan_number_bounds(s, 1, 0, 0);
            match scan_number(s, 1, 0, 0) {
                NumScan::Done { value, end } => {
                    lemma_scan_elems_ext(s, t, end, value);
                },
                _ => {},
            }
        }
    }
}

/// How one frame's elements read as a command: the first element is the
/// command name, the rest are its arguments.
pub ghost enum Interp {
    Command(CommandView),
    BadArity(Seq<u8>),
}

/// Matches the name against the fixed command set (case-sensitively,
/// byte-exact) and checks arity: `SET` takes two arguments, `GET`, `DEL`
/// and `EXISTS` one, `QUIT` none. Unknown names become `Unrecognized`.
pub open spec fn interpret(elems: Seq<Seq<u8>>) -> Interp
    recommends
        elems.len() >= 1,
{
    let name = elems[0];
    let argc = elems.len() - 1;
    if name == name_set() {
        if argc == 2 {
            Interp::Command(CommandView::Put { key: elems[1], value: elems[2] })
        } else {
            Interp::BadArity(name)
        }
    } else if name == name_get() {
        if argc == 1 {
            Interp::Command(CommandView::Get { key: elems[1] })
        } else {
            Interp::BadArity(name)
        }
    } else if name == name_del() {
        if argc == 1 {
            Interp::Command(CommandView::Del { key: elems[1] })
        } else {
            Interp::BadArity(name)
        }
    } else if name == name_exists() {
        if argc == 1 {
            Interp::Command(CommandView::Exists { key: elems[1] })
        } else {
            Interp::BadArity(name)
        }
    } else if name == name_quit() {
        if argc == 0 {
            Interp::Command(CommandView::Quit)
        } else {
            Interp::BadArity(name)
        }
    } else {
        Interp::Command(CommandView::Unrecognized { name })
    }
}

/// What `decode` returns for a given buffer: nothing yet, one command
/// and its consumed byte count, an arity error for a well-framed but
/// mis-used known command, or a framing error.
pub ghost enum DecodeView {
    NeedMore,
    Decoded { command: CommandView, consumed: int },
    ArityError { name: Seq<u8>, consumed: int },
    Malformed,
}

/// The decoder's whole contract as one function of the buffer: a
/// malformed frame (bad header byte, non-numeric or oversized count or
/// length, missing terminators, or an empty element array) is
/// `Malformed`; an incomplete frame is `NeedMore`; a complete frame is
/// read as a command.
pub open spec fn decode_spec(s: Seq<u8>) -> DecodeView {
    match scan_frame(s) {
        FrameScan::NeedMore => DecodeView::NeedMore,
        FrameScan::Bad => DecodeView::Malformed,
        FrameScan::Done { elems, end } => if elems.len() == 0 {
            DecodeView::Malformed
        } else {
            match interpret(elems) {
                Interp::Command(c) => (DecodeView::Decoded { command: c, consumed: end }),
                Interp::BadArity(n) => (DecodeView::ArityError { name: n, consumed: end }),
            }
        },
    }
}

/// Every proper prefix of a complete frame decodes to "need more
/// bytes": feeding the decoder byte by byte yields nothing until the
/// whole frame is present, and then exactly what the one-shot decode
/// yields.
pub proof fn lemma_partial_frame_safety(s: Seq<u8>, m: int)
    requires
        (scan_frame(s) matches FrameScan::Done { end, .. } && end == s.len()),
        0 <= m < s.len(),
    ensures
        scan_frame(s.take(m)) is NeedMore,
        decode_spec(s.take(m)) is NeedMore,
{
    let p = s.take(m);
    let rest = s.skip(m);
    assert(p + rest =~= s);
    match scan_frame(p) {
        FrameScan::NeedMore => {},
        FrameScan::Bad => {
            lemma_scan_frame_ext(p, rest);
        },
        FrameScan::Done { elems, end } => {
            lemma_scan_frame_ext(p, rest);
            lemma_scan_frame_bounds(p);
        },
    }
}

/// Pipelining: a buffer holding two concatenated complete frames decodes
/// to the first frame's command with its exact byte count, and the
/// remainder of the buffer from that offset is exactly the second frame.
pub proof fn lemma_pipelining(a: Seq<u8>, b: Seq<u8>)
    requires
        (scan_frame(a) matches FrameScan::Done { end, .. } && end == a.len()),
    ensures
        scan_frame(a + b) == scan_frame(a),
        decode_spec(a + b) == decode_spec(a),
        (a + b).skip(a.len() as int) == b,
{
    lemma_scan_frame_ext(a, b);
    assert((a + b).skip(a.len() as int) =~= b);
}

/// What the decoder hands back for one buffer.
pub enum DecodeResult {
    NeedMore,
    Decoded { command: Command, consumed: usize },
    ArityError { name: Vec<u8>, consumed: usize },
    Malformed,
}

impl View for DecodeResult {
    type V = DecodeView;

    open spec fn view(&self) -> DecodeView {
        match self {
            DecodeResult::NeedMore => DecodeView::NeedMore,
            DecodeResult::Decoded { command, consumed } => (DecodeView::Decoded {
                command: command@,
                consumed: *consumed as int,
            }),
            DecodeResult::ArityError { name, consumed } => (DecodeView::ArityError {
                name: name@,
                consumed: *consumed as int,
            }),
            DecodeResult::Malformed => DecodeView::Malformed,
        }
    }
}

/// Outcome of reading one decimal header number, executable form.
enum NumResult {
    NeedMore,
    Bad,
    Done { value: u64, end: usize },
}

/// The abstract value of a `NumResult`.
spec fn num_abs(r: NumResult) -> NumScan {
    match r {
        NumResult::NeedMore => NumScan::NeedMore,
        NumResult::Bad => NumScan::Bad,
        NumResult::Done { value, end } => (NumScan::Done { value: value as nat, end: end as int }),
    }
}

/// Reads a decimal number terminated by `\r\n` starting at `start`.
fn read_number(buf: &[u8], start: usize) -> (r: NumResult)
    requires
        start <= buf@.len(),
    ensures
        num_abs(r) == scan_number(buf@, start as int, 0, 0),
{
    let mut i: usize = start;
    let mut acc: u64 = 0;
    let ghost mut digits: nat = 0;
    let mut any: bool = false;
    while i < buf.len()
        invariant
            start <= i <= buf@.len(),
            acc <= MAX_FIELD,
            any == (digits > 0),
            scan_number(buf@, start as int, 0, 0) == scan_number(
                buf@,
                i as int,
                acc as nat,
                digits,
            ),
        decreases buf@.len() - i,
    {
        let b = buf[i];
        if 48 <= b && b <= 57 {
            let d = (b - 48) as u64;
            let v = acc * 10 + d;
            if v > MAX_FIELD {
                return NumResult::Bad;
            }
            acc = v;
            any = true;
            i = i + 1;
            proof {
                digits = digits + 1;
            }
        } else if b == 13 {
            if !any {
                return NumResult::Bad;
            }
            if i + 1 >= buf.len() {
                return NumResult::NeedMore;
            }
            if buf[i + 1] == 10 {
                return NumResult::Done { value: acc, end: i + 2 };
            }
            return NumResult::Bad;
        } else {
            return NumResult::Bad;
        }
    }
    NumResult::NeedMore
}

/// Outcome of reading one bulk string, executable form.
enum BulkResult {
    NeedMore,
    Bad,
    Done { data: Vec<u8>, end: usize },
}

/// The abstract value of a `BulkResult`.
spec fn bulk_abs(r: BulkResult) -> BulkScan {
    match r {
        BulkResult::NeedMore => BulkScan::NeedMore,
        BulkResult::Bad => BulkScan::Bad,
        BulkResult::Done { data, end } => (BulkScan::Done { data: data@, end: end as int }),
    }
}

/// Reads one bulk string `$<len>\r\n<bytes>\r\n` starting at `start`.
fn read_bulk(buf: &[u8], start: usize) -> (r: BulkResult)
    requires
        start <= buf@.len(),
    ensures
        bulk_abs(r) == scan_bulk(buf@, start as int),
{
    if start >= buf.len() {
        return BulkResult::NeedMore;
    }
    if buf[start] != 36 {
        return BulkResult::Bad;
    }
    match read_number(buf, start + 1) {
        NumResult::NeedMore => BulkResult::NeedMore,
        NumResult::Bad => BulkResult::Bad,
        NumResult::Done { value, end } => {
            proof {
                lemma_scan_number_bounds(buf@, start as int + 1, 0, 0);
            }
            let remaining = buf.len() - end;
            if (remaining as u64) < value + 2 {
                return BulkResult::NeedMore;
            }
            let vlen = value as usize;
            if buf[end + vlen] == 13 && buf[end + vlen + 1] == 10 {
                let data = copy_bytes(&buf[end..end + vlen]);
                BulkResult::Done { data, end: end + vlen + 2 }
            } else {
                BulkResult::Bad
            }
        },
    }
}

/// The byte sequences that a vector of byte vectors holds, in order.
pub open spec fn views_of(s: Seq<Vec<u8>>) -> Seq<Seq<u8>> {
    s.map_values(|v: Vec<u8>| v@)
}

proof fn lemma_views_push(s: Seq<Vec<u8>>, v: Vec<u8>)
    ensures
        views_of(s.push(v)) =~= views_of(s).push(v@),
{
    assert forall|i: int| 0 <= i < s.len() + 1 implies views_of(s.push(v))[i] == views_of(
        s,
    ).push(v@)[i] by {
        if i < s.len() {
            assert(s.push(v)[i] == s[i]);
        } else {
            assert(s.push(v)[i] == v);
        }
    }
}

/// Prepends already-read elements to the outcome of the remaining scan.
spec fn elems_prepend(v: Seq<Seq<u8>>, r: ElemsScan) -> ElemsScan {
    match r {
        ElemsScan::NeedMore => ElemsScan::NeedMore,
        ElemsScan::Bad => ElemsScan::Bad,
        ElemsScan::Done { elems, end } => (ElemsScan::Done { elems: v + elems, end }),
    }
}

/// Attempts to decode exactly one complete command frame from the front
/// of `buf`.
///
/// The buffer may hold a partial frame (`NeedMore`: nothing is
/// consumed), one frame, or more than one (the caller discards exactly
/// `consumed` bytes and decodes again). The contract is exact:
/// the result is `decode_spec` of the buffer's bytes.
pub fn decode(buf: &[u8]) -> (r: DecodeResult)
    ensures
        r@ == decode_spec(buf@),
{
    if buf.len() == 0 {
        return DecodeResult::NeedMore;
    }
    if buf[0] != 42 {
        return DecodeResult::Malformed;
    }
    let (count, start) = match read_number(buf, 1) {
        NumResult::NeedMore => {
            return DecodeResult::NeedMore;
        },
        NumResult::Bad => {
            return DecodeResult::Malformed;
        },
        NumResult::Done { value, end } => (value, end),
    };
    proof {
        lemma_scan_number_bounds(buf@, 1, 0, 0);
    }
    let mut elems: Vec<Vec<u8>> = Vec::new();
    let mut pos: usize = start;
    let mut k: u64 = 0;
    while k < count
        invariant
            k <= count,
            start <= buf@.len(),
            pos <= buf@.len(),
            buf@.len() > 0,
            buf@[0] == 42,
            scan_number(buf@, 1, 0, 0) == (NumScan::Done {
                value: count as nat,
                end: start as int,
            }),
            views_of(elems@).len() == k,
            scan_elems(buf@, start as int, count as nat) == elems_prepend(
                views_of(elems@),
                scan_elems(buf@, pos as int, (count - k) as nat),
            ),
        decreases count - k,
    {
        match read_bulk(buf, pos) {
            BulkResult::NeedMore => {
                assert(scan_elems(buf@, pos as int, (count - k) as nat) is NeedMore);
                assert(scan_elems(buf@, start as int, count as nat) is NeedMore);
                assert(scan_frame(buf@) is NeedMore);
                return DecodeResult::NeedMore;
            },
            BulkResult::Bad => {
                assert(scan_elems(buf@, pos as int, (count - k) as nat) is Bad);
                assert(scan_elems(buf@, start as int, count as nat) is Bad);
                assert(scan_frame(buf@) is Bad);
                return DecodeResult::Malformed;
            },
            BulkResult::Done { data, end } => {
                proof {
                    lemma_scan_bulk_bounds(buf@, pos as int);
                }
                let ghost prev = views_of(elems@);
                let ghost d = data@;
                let ghost pre_elems = elems@;
                elems.push(data);
                pos = end;
                k = k + 1;
                proof {
                    lemma_views_push(pre_elems, data);
                    assert(views_of(elems@) =~= prev.push(d));
                    assert(prev.push(d) =~= prev + seq![d]);
                    match scan_elems(buf@, pos as int, (count - k) as nat) {
                        ElemsScan::Done { elems: rest, end: e } => {
                            assert((prev + seq![d]) + rest =~= prev + (seq![d] + rest));
                        },
                        _ => {},
                    }
                }
            },
        }
    }
    assert(scan_elems(buf@, pos as int, 0) == (ElemsScan::Done {
        elems: Seq::<Seq<u8>>::empty(),
        end: pos as int,
    }));
    assert(views_of(elems@) + Seq::<Seq<u8>>::empty() =~= views_of(elems@));
    assert(scan_frame(buf@) == (FrameScan::Done { elems: views_of(elems@), end: pos as int }));
    if elems.len() == 0 {
        return DecodeResult::Malformed;
    }
    let ghost views = views_of(elems@);
    assert(views[0] == elems@[0]@);
    let argc = elems.len() - 1;
    let pat_set = set_name();
    let pat_get = get_name();
    let pat_del = del_name();
    let pat_exists = exists_name();
    let pat_quit = quit_name();
    let is_s = bytes_eq(elems[0].as_slice(), pat_set.as_slice());
    let is_g = bytes_eq(elems[0].as_slice(), pat_get.as_slice());
    let is_d = bytes_eq(elems[0].as_slice(), pat_del.as_slice());
    let is_e = bytes_eq(elems[0].as_slice(), pat_exists.as_slice());
    let is_q = bytes_eq(elems[0].as_slice(), pat_quit.as_slice());
    if is_s {
        if argc == 2 {
            assert(views[2] == elems@[2]@);
            assert(views[1] == elems@[1]@);
            let value = elems.pop().unwrap();
            let key = elems.pop().unwrap();
            DecodeResult::Decoded { command: Command::Put { key, value }, consumed: pos }
        } else {
            let name = elems.swap_remove(0);
            DecodeResult::ArityError { name, consumed: pos }
        }
    } else if is_g || is_d || is_e {
        if argc == 1 {
            assert(views[1] == elems@[1]@);
            let key = elems.pop().unwrap();
            let command = if is_g {
                Command::Get { key }
            } else if is_d {
                Command::Del { key }
            } else {
                Command::Exists { key }
            };
            DecodeResult::Decoded { command, consumed: pos }
        } else {
            let name = elems.swap_remove(0);
            DecodeResult::ArityError { name, consumed: pos }
        }
    } else if is_q {
        if argc == 0 {
            DecodeResult::Decoded { command: Command::Quit, consumed: pos }
        } else {
            let name = elems.swap_remove(0);
            DecodeResult::ArityError { name, consumed: pos }
        }
    } else {
        let name = elems.swap_remove(0);
        DecodeResult::Decoded { command: Command::Unrecognized { name }, consumed: pos }
    }
}

} // verus!
