//! The DNS query wire format: a fixed 12-byte header, one question name as
//! length-prefixed labels, and the type and class of the question.
//!
//! Names are handled as byte sequences. A domain given as text is taken by
//! its UTF-8 bytes; the byte `.` separates labels.

use vstd::prelude::*;
use vstd::string::StringSliceAdditionalSpecFns;
use vstd::utf8::*;

verus! {

/// Largest message that is ever built, and the size of the buffers that hold one.
pub const MAX_MESSAGE_SIZE: usize = 512;

/// Largest label that a query may hold.
pub const MAX_LABEL_SIZE: usize = 63;

/// Size of the fixed header in front of the question.
pub const HEADER_SIZE: usize = 12;

/// What a message holds besides the name itself: the header, the length byte
/// of the first label, the terminating zero label, the type and the class.
pub const FRAME_SIZE: usize = 18;

/// The label separator, `.`.
pub const DOT: u8 = 0x2e;

/// Why a domain cannot be put into a query.
#[derive(Debug, Clone, Copy, PartialEq, Eq, Structural)]
pub enum QueryError {
    /// The message would be larger than `MAX_MESSAGE_SIZE`.
    BufferOverflow,
    /// One label is longer than `MAX_LABEL_SIZE`.
    LabelTooLong,
}

/// Number of bytes in front of the first dot of `name`; all of `name` where
/// it holds no dot.
pub open spec fn first_label_len(name: Seq<u8>) -> nat
    decreases name.len(),
{
    if name.len() == 0 || name[0] == DOT {
        0
    } else {
        1 + first_label_len(name.drop_first())
    }
}

/// Every label of `name` has at most `limit` bytes.
pub open spec fn labels_at_most(name: Seq<u8>, limit: nat) -> bool
    decreases name.len(),
{
    let n = first_label_len(name);
    n <= limit && (n < name.len() ==> labels_at_most(name.skip(n + 1 as int), limit))
}

/// Every label of `name` has at least one byte.
pub open spec fn labels_nonempty(name: Seq<u8>) -> bool
    decreases name.len(),
{
    let n = first_label_len(name);
    n >= 1 && (n < name.len() ==> labels_nonempty(name.skip(n + 1 as int)))
}

/// The header of a query with the given id: the id in big-endian order, the
/// flags with only "recursion desired" set, one question, no other records.
pub open spec fn header(id: u16) -> Seq<u8> {
    seq![(id / 256) as u8, (id % 256) as u8, 1u8, 0u8, 0u8, 1u8, 0u8, 0u8, 0u8, 0u8, 0u8, 0u8]
}

/// The question name on the wire: each label behind a byte that holds its
/// length, and a zero-length label at the end.
pub open spec fn qname(name: Seq<u8>) -> Seq<u8>
    decreases name.len(),
{
    let n = first_label_len(name);
    seq![n as u8] + name.take(n as int) + if n < name.len() {
        qname(name.skip(n + 1 as int))
    } else {
        seq![0u8]
    }
}

/// Type A and class IN, each as a big-endian 16-bit number.
pub open spec fn question_tail() -> Seq<u8> {
    seq![0u8, 1u8, 0u8, 1u8]
}

/// The whole query for `name` under `id`.
pub open spec fn query_bytes(name: Seq<u8>, id: u16) -> Seq<u8> {
    header(id) + qname(name) + question_tail()
}

/// What encoding `name` under `id` gives: the query, or the reason why there
/// is none. A message that would not fit is reported before a label that is
/// too long.
pub open spec fn query_of(name: Seq<u8>, id: u16) -> Result<Seq<u8>, QueryError> {
    if name.len() + FRAME_SIZE > MAX_MESSAGE_SIZE {
        Err(QueryError::BufferOverflow)
    } else if !labels_at_most(name, MAX_LABEL_SIZE as nat) {
        Err(QueryError::LabelTooLong)
    } else {
        Ok(query_bytes(name, id))
    }
}

/// The id that a message carries: its first two bytes, big-endian. A message
/// of fewer than two bytes carries none.
pub open spec fn id_of(wire: Seq<u8>) -> Option<u16> {
    if wire.len() < 2 {
        None
    } else {
        Some((wire[0] * 256 + wire[1]) as u16)
    }
}

/// No label starts at `pos`: the message ends there, or holds a zero there.
pub open spec fn name_ends_at(wire: Seq<u8>, pos: int) -> bool {
    pos >= wire.len() || wire[pos] == 0
}

/// Where the label that starts at `pos` ends. A length byte that points
/// past the end of the message is cut down to what the message holds.
pub open spec fn label_end(wire: Seq<u8>, pos: int) -> int {
    if pos + 1 + wire[pos] <= wire.len() {
        pos + 1 + wire[pos]
    } else {
        wire.len() as int
    }
}

/// The labels that start at `pos`, joined by dots, up to a zero-length label
/// or the end of the message. A length byte counts as a length whatever its
/// value: compression pointers are not followed.
pub open spec fn name_from(wire: Seq<u8>, pos: int) -> Seq<u8>
    decreases wire.len() - pos,
{
    if pos < 0 || name_ends_at(wire, pos) {
        Seq::empty()
    } else {
        let end = label_end(wire, pos);
        let label = wire.subrange(pos + 1, end);
        if name_ends_at(wire, end) {
            label
        } else {
            label + seq![DOT] + name_from(wire, end)
        }
    }
}

/// The question name of a message, dots between its labels.
pub open spec fn question_name(wire: Seq<u8>) -> Seq<u8> {
    name_from(wire, HEADER_SIZE as int)
}

/// The question name of a message as text, where its bytes are UTF-8.
pub open spec fn question_text(wire: Seq<u8>) -> Option<Seq<char>> {
    if valid_utf8(question_name(wire)) {
        Some(decode_utf8(question_name(wire)))
    } else {
        None
    }
}

/// The wire form of a name is two bytes longer than the name.
pub proof fn lemma_qname_len(name: Seq<u8>)
    ensures
        qname(name).len() == name.len() + 2,
    decreases name.len(),
{
    lemma_first_label_len_bound(name);
    let n = first_label_len(name);
    if n < name.len() {
        lemma_qname_len(name.skip(n + 1 as int));
    }
}

/// A label is no longer than the name it stands in, and a dot follows it
/// unless the name ends with it. No dot stands inside it.
pub proof fn lemma_first_label_len_bound(name: Seq<u8>)
    ensures
        first_label_len(name) <= name.len(),
        first_label_len(name) < name.len() ==> name[first_label_len(name) as int] == DOT,
        forall|k: int| 0 <= k < first_label_len(name) ==> name[k] != DOT,
    decreases name.len(),
{
    if name.len() == 0 || name[0] == DOT {
    } else {
        let rest = name.drop_first();
        lemma_first_label_len_bound(rest);
        assert forall|k: int| 0 <= k < first_label_len(name) implies name[k] != DOT by {
            if k > 0 {
                assert(name[k] == rest[k - 1]);
            }
        }
        if first_label_len(name) < name.len() {
            assert(name[first_label_len(name) as int] == rest[first_label_len(rest) as int]);
        }
    }
}

/// A stretch of `count` bytes without a dot in front of position
/// `from + count` belongs to the label that starts at `from`.
proof fn lemma_label_extends(name: Seq<u8>, from: int, count: int)
    requires
        0 <= from,
        0 <= count,
        from + count <= name.len(),
        forall|k: int| from <= k < from + count ==> name[k] != DOT,
    ensures
        first_label_len(name.skip(from)) == count + first_label_len(name.skip(from + count)),
    decreases count,
{
    if count > 0 {
        let s = name.skip(from);
        assert(s[0] == name[from]);
        assert(s.drop_first() =~= name.skip(from + 1));
        lemma_label_extends(name, from + 1, count - 1);
    }
}

/// Builds the query for `domain` under `id`.
///
/// The message is the header, the labels of `domain` each behind its length
/// byte, the zero-length label, then type A and class IN. A domain whose
/// message would pass `MAX_MESSAGE_SIZE` is refused with `BufferOverflow`,
/// one with a label of more than `MAX_LABEL_SIZE` bytes with `LabelTooLong`.
pub fn encode(domain: &str, id: u16) -> (r: Result<Vec<u8>, QueryError>)
    ensures
        match r {
            Ok(wire) => query_of(domain.spec_bytes(), id) == Ok::<Seq<u8>, QueryError>(wire@),
            Err(e) => query_of(domain.spec_bytes(), id) == Err::<Seq<u8>, QueryError>(e),
        },
{
    let name = domain.as_bytes();
    let len = name.len();
    if len > MAX_MESSAGE_SIZE - FRAME_SIZE {
        return Err(QueryError::BufferOverflow);
    }
    let mut out: Vec<u8> = Vec::with_capacity(len + FRAME_SIZE);
    out.push((id / 256) as u8);
    out.push((id % 256) as u8);
    out.push(1);
    out.push(0);
    out.push(0);
    out.push(1);
    out.push(0);
    out.push(0);
    out.push(0);
    out.push(0);
    out.push(0);
    out.push(0);
    assert(out@ =~= header(id));
    let mut start: usize = 0;
    assert(name@.skip(0) =~= name@);
    loop
        invariant_except_break
            start <= len,
            header(id) + qname(name@) == out@ + qname(name@.skip(start as int)),
            labels_at_most(name@, MAX_LABEL_SIZE as nat) == labels_at_most(
                name@.skip(start as int),
                MAX_LABEL_SIZE as nat,
            ),
        invariant
            len == name@.len(),
            len + FRAME_SIZE <= MAX_MESSAGE_SIZE,
            name@ == domain.spec_bytes(),
        ensures
            labels_at_most(name@, MAX_LABEL_SIZE as nat),
            header(id) + qname(name@) == out@ + seq![0u8],
        decreases len - start,
    {
        let ghost rest = name@.skip(start as int);
        let ghost before = out@;
        let mut end: usize = start;
        while end < len && name[end] != DOT
            invariant
                start <= end <= len,
                len == name@.len(),
                forall|k: int| start <= k < end ==> name@[k] != DOT,
            decreases len - end,
        {
            end += 1;
        }
        let n: usize = end - start;
        proof {
            lemma_label_extends(name@, start as int, n as int);
            assert(first_label_len(name@.skip(end as int)) == 0) by {
                if end < len {
                    assert(name@.skip(end as int)[0] == name@[end as int]);
                }
            }
            assert(first_label_len(rest) == n);
        }
        if n > MAX_LABEL_SIZE {
            return Err(QueryError::LabelTooLong);
        }
        out.push(n as u8);
        let mut k: usize = start;
        while k < end
            invariant
                start <= k <= end <= len,
                len == name@.len(),
                out@ == before + seq![n as u8] + name@.subrange(start as int, k as int),
            decreases end - k,
        {
            out.push(name[k]);
            assert(name@.subrange(start as int, k as int).push(name@[k as int]) =~= name@.subrange(
                start as int,
                k + 1,
            ));
            k += 1;
        }
        assert(name@.subrange(start as int, end as int) =~= rest.take(n as int));
        if end == len {
            assert(out@ + seq![0u8] =~= before + qname(rest));
            break ;
        }
        assert(rest.skip(n + 1) =~= name@.skip(end + 1));
        assert(out@ + qname(name@.skip(end + 1)) =~= before + qname(rest));
        start = end + 1;
    }
    out.push(0);
    out.push(0);
    out.push(1);
    out.push(0);
    out.push(1);
    assert(out@ =~= query_bytes(name@, id)) by {
        assert(out@ =~= (header(id) + qname(name@)) + question_tail());
    }
    Ok(out)
}

/// Builds the query for `domain` under `id` at the front of `dest_buf` and
/// returns its length. The rest of the buffer keeps what it held, and so does
/// all of it where the domain is refused.
pub fn construct_query(domain: &str, id: u16, dest_buf: &mut [u8]) -> (r: Result<
    usize,
    QueryError,
>)
    requires
        old(dest_buf)@.len() == MAX_MESSAGE_SIZE,
    ensures
        final(dest_buf)@.len() == MAX_MESSAGE_SIZE,
        match r {
            Ok(n) => {
                &&& n <= MAX_MESSAGE_SIZE
                &&& query_of(domain.spec_bytes(), id) == Ok::<Seq<u8>, QueryError>(
                    final(dest_buf)@.take(n as int),
                )
                &&& final(dest_buf)@.skip(n as int) == old(dest_buf)@.skip(n as int)
            },
            Err(e) => {
                &&& query_of(domain.spec_bytes(), id) == Err::<Seq<u8>, QueryError>(e)
                &&& final(dest_buf)@ == old(dest_buf)@
            },
        },
{
    let wire = encode(domain, id)?;
    proof {
        lemma_qname_len(domain.spec_bytes());
    }
    let n = wire.len();
    let mut k: usize = 0;
    while k < n
        invariant
            k <= n <= MAX_MESSAGE_SIZE,
            n == wire@.len(),
            dest_buf@.len() == MAX_MESSAGE_SIZE,
            forall|i: int| 0 <= i < k ==> dest_buf@[i] == wire@[i],
            forall|i: int| k <= i < MAX_MESSAGE_SIZE ==> dest_buf@[i] == old(dest_buf)@[i],
        decreases n - k,
    {
        dest_buf[k] = wire[k];
        k += 1;
    }
    assert(dest_buf@.take(n as int) =~= wire@);
    assert(dest_buf@.skip(n as int) =~= old(dest_buf)@.skip(n as int));
    Ok(n)
}

/// The id of a message: its first two bytes as a big-endian number, where it
/// has them.
pub fn decode_id(wire: &[u8]) -> (r: Option<u16>)
    ensures
        r == id_of(wire@),
{
    if wire.len() < 2 {
        None
    } else {
        let high: u16 = wire[0] as u16;
        let low: u16 = wire[1] as u16;
        Some(high * 256 + low)
    }
}

/// The question name of a message as bytes: its labels from behind the
/// header on, joined by dots. Reading stops at a zero-length label and at the
/// end of the message, and a label that the message cuts short is taken as
/// far as it goes.
pub fn decode_question(wire: &[u8]) -> (r: Vec<u8>)
    ensures
        r@ == question_name(wire@),
{
    let len = wire.len();
    let mut out: Vec<u8> = Vec::new();
    let mut pos: usize = HEADER_SIZE;
    if pos >= len || wire[pos] == 0 {
        return out;
    }
    loop
        invariant_except_break
            HEADER_SIZE <= pos < len,
            wire@[pos as int] != 0,
            question_name(wire@) == out@ + name_from(wire@, pos as int),
        invariant
            len == wire@.len(),
        ensures
            out@ == question_name(wire@),
        decreases len - pos,
    {
        let ghost before = out@;
        let label_len: usize = wire[pos] as usize;
        let end: usize = if len - pos - 1 >= label_len {
            pos + 1 + label_len
        } else {
            len
        };
        assert(end == label_end(wire@, pos as int));
        let mut k: usize = pos + 1;
        while k < end
            invariant
                pos + 1 <= k <= end <= len,
                len == wire@.len(),
                out@ == before + wire@.subrange(pos + 1, k as int),
            decreases end - k,
        {
            out.push(wire[k]);
            assert(wire@.subrange(pos + 1, k as int).push(wire@[k as int]) =~= wire@.subrange(
                pos + 1,
                k + 1,
            ));
            k += 1;
        }
        if end >= len || wire[end] == 0 {
            break ;
        }
        out.push(DOT);
        assert(out@ + name_from(wire@, end as int) =~= before + name_from(wire@, pos as int));
        pos = end;
    }
    out
}

/// `String::from_utf8`: the text that `bytes` encode, where they are
/// well-formed UTF-8, and nothing where they are not.
#[verifier::external_body]
fn text_of_utf8(bytes: Vec<u8>) -> (r: Option<String>)
    ensures
        r is Some <==> valid_utf8(bytes@),
        r matches Some(text) ==> text@ == decode_utf8(bytes@),
{
    String::from_utf8(bytes).ok()
}

/// The question name of a message as text, or nothing where its bytes are
/// not UTF-8.
pub fn get_question_as_string(wire: &[u8]) -> (r: Option<String>)
    ensures
        match r {
            Some(text) => question_text(wire@) == Some(text@),
            None => question_text(wire@) is None,
        },
{
    text_of_utf8(decode_question(wire))
}

/// Reading from `pos` gives `name` back where the bytes from `pos` on are the
/// wire form of `name` followed by anything that is not a label of its own,
/// every label of `name` has between 1 and 255 bytes, and `name` is not empty.
proof fn lemma_name_from_qname(wire: Seq<u8>, pos: int, name: Seq<u8>)
    requires
        0 <= pos,
        pos + name.len() + 2 <= wire.len(),
        wire.subrange(pos, pos + name.len() + 2) == qname(name),
        labels_nonempty(name),
        labels_at_most(name, 255),
    ensures
        name_from(wire, pos) == name,
        !name_ends_at(wire, pos),
    decreases name.len(),
{
    lemma_first_label_len_bound(name);
    let n = first_label_len(name) as int;
    let coded = wire.subrange(pos, pos + name.len() + 2);
    let rest = name.skip(n + 1);
    assert(wire[pos] == coded[0]);
    assert(coded[0] == n as u8);
    let end = label_end(wire, pos);
    assert(end == pos + 1 + n);
    assert(wire.subrange(pos + 1, end) =~= name.take(n)) by {
        assert forall|i: int| 0 <= i < n implies wire[pos + 1 + i] == name[i] by {
            assert(wire[pos + 1 + i] == coded[1 + i]);
        }
    }
    if n < name.len() {
        lemma_qname_len(rest);
        assert(wire.subrange(end, end + rest.len() + 2) =~= qname(rest)) by {
            assert forall|i: int| 0 <= i < rest.len() + 2 implies wire[end + i] == qname(rest)[i] by {
                assert(wire[end + i] == coded[1 + n + i]);
            }
        }
        lemma_name_from_qname(wire, end, rest);
        assert(name =~= name.take(n) + seq![DOT] + rest);
    } else {
        assert(wire[end] == coded[1 + n]);
        assert(name.take(n) =~= name);
    }
}

/// A name whose labels fit under a limit has them fit under a larger one.
proof fn lemma_labels_at_most_weaken(name: Seq<u8>, limit: nat, larger: nat)
    requires
        labels_at_most(name, limit),
        limit <= larger,
    ensures
        labels_at_most(name, larger),
    decreases name.len(),
{
    lemma_first_label_len_bound(name);
    let n = first_label_len(name);
    if n < name.len() {
        lemma_labels_at_most_weaken(name.skip(n + 1 as int), limit, larger);
    }
}

/// A query gives back what it was built from: the id under which it was
/// built and, where no label of the name is empty, the name itself. The empty
/// name comes back too.
pub proof fn lemma_round_trip(name: Seq<u8>, id: u16)
    requires
        query_of(name, id) is Ok,
        name.len() == 0 || labels_nonempty(name),
    ensures
        id_of(query_bytes(name, id)) == Some(id),
        question_name(query_bytes(name, id)) == name,
{
    let wire = query_bytes(name, id);
    lemma_qname_len(name);
    assert(wire[0] == (id / 256) as u8);
    assert(wire[1] == (id % 256) as u8);
    if name.len() == 0 {
        assert(wire[HEADER_SIZE as int] == qname(name)[0]);
        assert(question_name(wire) =~= name);
    } else {
        lemma_labels_at_most_weaken(name, MAX_LABEL_SIZE as nat, 255);
        assert(wire.subrange(HEADER_SIZE as int, HEADER_SIZE + name.len() + 2) =~= qname(name));
        lemma_name_from_qname(wire, HEADER_SIZE as int, name);
    }
}

/// The same for a domain given as text: the question of its query reads as
/// the domain.
pub proof fn lemma_round_trip_text(domain: Seq<char>, id: u16)
    requires
        query_of(encode_utf8(domain), id) is Ok,
        domain.len() == 0 || labels_nonempty(encode_utf8(domain)),
    ensures
        id_of(query_bytes(encode_utf8(domain), id)) == Some(id),
        question_text(query_bytes(encode_utf8(domain), id)) == Some(domain),
{
    let name = encode_utf8(domain);
    if domain.len() == 0 {
        assert(name.len() == 0);
    }
    lemma_round_trip(name, id);
    encode_utf8_valid_utf8(domain);
    encode_utf8_decode_utf8(domain);
}

} // verus!
