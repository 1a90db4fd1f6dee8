//! The protobuf wire format and the frames that carry it.
use crate::bytes;
use vstd::prelude::*;

verus! {

/// The base-128 varint for `value`: seven bits a byte, lowest first, with the
/// high bit set on every byte but the last.
pub open spec fn varint_bytes(value: nat) -> Seq<u8>
    decreases value,
{
    if value < 128 {
        seq![value as u8]
    } else {
        seq![(value % 128 + 128) as u8] + varint_bytes(value / 128)
    }
}

/// The number of bytes of the varint at the start of `buf`: up to and
/// including the first byte below 128, or all of them where there is none.
pub open spec fn varint_len(buf: Seq<u8>) -> nat
    decreases buf.len(),
{
    if buf.len() == 0 {
        0
    } else if buf[0] < 128 {
        1
    } else {
        1 + varint_len(buf.skip(1))
    }
}

/// The value of a varint's bytes: byte `i` holds the seven bits from bit `7 * i`
/// on. What would lie above bit 63 is taken modulo 64.
pub open spec fn varint_value(group: Seq<u8>) -> u64
    decreases group.len(),
{
    if group.len() == 0 {
        0
    } else {
        varint_value(group.drop_last()) | (((group.last() & 0x7f) as u64) << ((7 * (group.len()
            - 1)) % 64) as u64)
    }
}

/// The tag of a field: its number and its wire type in one varint.
pub open spec fn tag_value(field: u64, wire: u64) -> u64 {
    (field << 3) | wire
}

/// A varint field on the wire.
pub open spec fn varint_field(field: u64, value: u64) -> Seq<u8> {
    varint_bytes(tag_value(field, 0) as nat) + varint_bytes(value as nat)
}

/// A length-delimited field on the wire.
pub open spec fn bytes_field(field: u64, value: Seq<u8>) -> Seq<u8> {
    varint_bytes(tag_value(field, 2) as nat) + varint_bytes(value.len()) + value
}

/// A message under construction.
#[derive(Debug, Clone)]
pub struct ProtobufEncoder {
    chunks: Vec<Vec<u8>>,
}

/// The bytes of the first `n` chunks, one after the other.
spec fn chunk_bytes(chunks: Seq<Vec<u8>>, n: int) -> Seq<u8>
    decreases n,
{
    if n <= 0 {
        seq![]
    } else {
        chunk_bytes(chunks, n - 1) + chunks[n - 1]@
    }
}

/// Later chunks do not change the bytes of earlier ones.
proof fn lemma_chunk_bytes_push(chunks: Seq<Vec<u8>>, chunk: Vec<u8>, n: int)
    requires
        0 <= n <= chunks.len(),
    ensures
        chunk_bytes(chunks.push(chunk), n) == chunk_bytes(chunks, n),
    decreases n,
{
    if n > 0 {
        lemma_chunk_bytes_push(chunks, chunk, n - 1);
    }
}

impl View for ProtobufEncoder {
    type V = Seq<u8>;

    closed spec fn view(&self) -> Seq<u8> {
        chunk_bytes(self.chunks@, self.chunks@.len() as int)
    }
}

impl Default for ProtobufEncoder {
    fn default() -> (r: Self)
        ensures
            r@ == Seq::<u8>::empty(),
    {
        ProtobufEncoder { chunks: Vec::new() }
    }
}

impl ProtobufEncoder {
    /// An empty message.
    pub fn new() -> (r: Self)
        ensures
            r@ == Seq::<u8>::empty(),
    {
        Self::default()
    }

    /// The varint for `value`.
    pub fn varint(value: u64) -> (r: Vec<u8>)
        ensures
            r@ == varint_bytes(value as nat),
    {
        let mut rest: u64 = value;
        let mut out: Vec<u8> = Vec::new();
        while rest > 0x7f
            invariant
                out@ + varint_bytes(rest as nat) == varint_bytes(value as nat),
            decreases rest,
        {
            assert(((rest & 0x7f) as u8) | 0x80 == (rest % 128 + 128) as u8 && rest >> 7 == rest
                / 128) by (bit_vector);
            let ghost before = out@;
            out.push(((rest & 0x7f) as u8) | 0x80);
            assert(out@ + varint_bytes((rest / 128) as nat) =~= before + (seq![
                (rest % 128 + 128) as u8,
            ] + varint_bytes((rest / 128) as nat)));
            rest = rest >> 7;
        }
        assert(rest <= 0x7f ==> (rest & 0x7f) as u8 == rest as u8) by (bit_vector);
        out.push((rest & 0x7f) as u8);
        out
    }

    fn tag(field: u64, wire: u64) -> (r: Vec<u8>)
        ensures
            r@ == varint_bytes(tag_value(field, wire) as nat),
    {
        Self::varint((field << 3) | wire)
    }

    fn push_chunk(&mut self, chunk: Vec<u8>)
        ensures
            final(self)@ == old(self)@ + chunk@,
    {
        proof {
            lemma_chunk_bytes_push(self.chunks@, chunk, self.chunks@.len() as int);
        }
        self.chunks.push(chunk);
    }

    /// Adds a varint field.
    pub fn write_varint(&mut self, field: u64, value: u64) -> (r: &mut Self)
        ensures
            r@ == old(self)@ + varint_field(field, value),
            *final(self) == *final(r),
    {
        self.push_chunk(Self::tag(field, 0));
        self.push_chunk(Self::varint(value));
        assert(self@ =~= old(self)@ + varint_field(field, value));
        self
    }

    /// Adds a text field.
    pub fn write_string(&mut self, field: u64, value: &str) -> (r: &mut Self)
        ensures
            r@ == old(self)@ + bytes_field(field, vstd::utf8::encode_utf8(value@)),
            *final(self) == *final(r),
    {
        self.write_bytes(field, value.as_bytes())
    }

    /// Adds a length-delimited field.
    pub fn write_bytes(&mut self, field: u64, value: &[u8]) -> (r: &mut Self)
        ensures
            r@ == old(self)@ + bytes_field(field, value@),
            *final(self) == *final(r),
    {
        self.push_chunk(Self::tag(field, 2));
        self.push_chunk(Self::varint(value.len() as u64));
        self.push_chunk(bytes::copied(value));
        assert(self@ =~= old(self)@ + bytes_field(field, value@));
        self
    }

    /// Adds `sub` as an embedded message.
    pub fn write_message(&mut self, field: u64, sub: &ProtobufEncoder) -> (r: &mut Self)
        ensures
            r@ == old(self)@ + bytes_field(field, sub@),
            *final(self) == *final(r),
    {
        let data = sub.to_bytes();
        self.write_bytes(field, &data)
    }

    /// The bytes of the message.
    pub fn to_bytes(&self) -> (r: Vec<u8>)
        ensures
            r@ == self@,
    {
        let mut out: Vec<u8> = Vec::new();
        let mut i: usize = 0;
        while i < self.chunks.len()
            invariant
                i <= self.chunks@.len(),
                out@ == chunk_bytes(self.chunks@, i as int),
            decreases self.chunks@.len() - i,
        {
            bytes::append(&mut out, &self.chunks[i]);
            i += 1;
        }
        out
    }
}

/// What `decode_varint` reads at `offset`: the value, and where the next item starts.
pub open spec fn varint_at(buf: Seq<u8>, offset: int) -> (u64, int) {
    if offset >= buf.len() {
        (0, offset)
    } else {
        let rest = buf.skip(offset);
        (varint_value(rest.take(varint_len(rest) as int)), offset + varint_len(rest))
    }
}

/// A varint takes at least one byte of a nonempty buffer and no more than there are.
proof fn lemma_varint_len(buf: Seq<u8>)
    ensures
        varint_len(buf) <= buf.len(),
        buf.len() > 0 ==> varint_len(buf) > 0,
    decreases buf.len(),
{
    if buf.len() > 0 && buf[0] >= 128 {
        lemma_varint_len(buf.skip(1));
    }
}

/// Where the first byte below 128 stands fixes the length of a varint.
proof fn lemma_varint_len_is(buf: Seq<u8>, n: int)
    requires
        0 <= n <= buf.len(),
        forall|i: int| 0 <= i < n - 1 ==> buf[i] >= 128,
        n == buf.len() || (n > 0 && buf[n - 1] < 128),
    ensures
        varint_len(buf) == n,
    decreases n,
{
    if n > 0 && buf[0] >= 128 {
        lemma_varint_len_is(buf.skip(1), n - 1);
    }
}

/// The shift of the byte behind the byte with index `k`.
proof fn lemma_next_shift(k: int)
    requires
        k >= 0,
    ensures
        ((7 * k) % 64 + 7) % 64 == (7 * (k + 1)) % 64,
{
}

/// Reads the varint that starts at `offset`: its value and the offset behind it.
pub fn decode_varint(buf: &[u8], offset: usize) -> (r: (u64, usize))
    ensures
        (r.0, r.1 as int) == varint_at(buf@, offset as int),
{
    let mut value: u64 = 0;
    let mut shift: u32 = 0;
    let mut end: usize = offset;
    let ghost rest = buf@.skip(offset as int);
    if offset >= buf.len() {
        return (0, offset);
    }
    assert(rest.take(0) =~= seq![]);
    let mut open = true;
    while open && end < buf.len()
        invariant
            offset < buf@.len(),
            offset <= end <= buf@.len(),
            rest == buf@.skip(offset as int),
            shift == (7 * (end - offset)) % 64,
            value == varint_value(rest.take(end - offset)),
            open ==> forall|i: int| 0 <= i < end - offset ==> rest[i] >= 128,
            !open ==> end > offset && rest[end - offset - 1] < 128 && forall|i: int|
                0 <= i < end - offset - 1 ==> rest[i] >= 128,
        decreases buf@.len() - end,
    {
        let byte = buf[end];
        assert(byte == rest[end - offset]);
        proof {
            let next = rest.take(end - offset + 1);
            assert(next.drop_last() =~= rest.take(end - offset));
            assert(next.last() == byte);
            assert((byte & 0x80 == 0) <==> byte < 128) by (bit_vector);
            lemma_next_shift(end - offset);
        }
        end += 1;
        value = value | (((byte & 0x7f) as u64) << (shift as u64));
        shift = (shift + 7) % 64;
        if byte & 0x80 == 0 {
            open = false;
        }
    }
    proof {
        lemma_varint_len_is(rest, end - offset);
    }
    (value, end)
}

/// `data` from byte `n` on; nothing where it is shorter.
pub open spec fn after(data: Seq<u8>, n: int) -> Seq<u8> {
    if 0 <= n <= data.len() {
        data.skip(n)
    } else {
        seq![]
    }
}

/// The text of a length-delimited field, where it is UTF-8 of more than five bytes.
pub open spec fn long_text(raw: Seq<u8>) -> Seq<Seq<char>> {
    if vstd::utf8::valid_utf8(raw) && raw.len() > 5 {
        seq![vstd::utf8::decode_utf8(raw)]
    } else {
        seq![]
    }
}

/// The long texts among the length-delimited fields of a message, in order. The
/// message ends at the first field that has no known wire type or lacks its value.
pub open spec fn extracted(data: Seq<u8>) -> Seq<Seq<char>>
    decreases data.len(),
    via extracted_decreases
{
    if data.len() == 0 {
        seq![]
    } else {
        let tag = varint_at(data, 0).0;
        let rest = after(data, varint_at(data, 0).1);
        let inner = after(rest, varint_at(rest, 0).1);
        match tag & 7 {
            0 => if rest.len() == 0 {
                seq![]
            } else {
                extracted(inner)
            },
            1 => extracted(after(rest, 8)),
            2 => if rest.len() == 0 {
                seq![]
            } else {
                let length = varint_at(rest, 0).0 as usize as int;
                if length <= inner.len() {
                    long_text(inner.take(length)) + extracted(after(inner, length))
                } else {
                    seq![]
                }
            },
            5 => extracted(after(rest, 4)),
            _ => seq![],
        }
    }
}

#[via_fn]
proof fn extracted_decreases(data: Seq<u8>) {
    if data.len() > 0 {
        lemma_varint_len(data.skip(0));
        let rest = after(data, varint_at(data, 0).1);
        lemma_varint_len(rest.skip(0));
    }
}

/// The position `n` bytes on; one past every buffer where that cannot be counted.
fn advance(i: usize, n: usize) -> (r: usize)
    ensures
        r == if i + n <= usize::MAX {
            i + n
        } else {
            usize::MAX as int
        },
{
    if n <= usize::MAX - i {
        i + n
    } else {
        usize::MAX
    }
}

/// Reading at an offset is reading at the start of what follows.
proof fn lemma_varint_at_skip(data: Seq<u8>, i: int)
    requires
        0 <= i <= data.len(),
    ensures
        varint_at(data, i).0 == varint_at(data.skip(i), 0).0,
        varint_at(data, i).1 == i + varint_at(data.skip(i), 0).1,
        i <= varint_at(data, i).1 <= data.len(),
        i < data.len() ==> varint_at(data, i).1 > i,
{
    assert(data.skip(i).skip(0) =~= data.skip(i));
    lemma_varint_len(data.skip(i));
}

/// Reads the field at `i`: the long text that it holds, if any, and where the
/// next field starts, if the message goes on.
fn read_field(data: &[u8], i: usize) -> (r: (Option<String>, Option<usize>))
    requires
        i < data@.len(),
    ensures
        r.1 matches Some(next) ==> next > i,
        extracted(after(data@, i as int)) == field_texts(r.0) + field_rest(data@, r.1),
{
    let ghost here = data@.skip(i as int);
    proof {
        lemma_varint_at_skip(data@, i as int);
    }
    let (tag, rest_at) = decode_varint(data, i);
    let ghost rest = data@.skip(rest_at as int);
    assert(after(here, varint_at(here, 0).1) =~= rest);
    proof {
        lemma_varint_at_skip(data@, rest_at as int);
    }
    let (number, inner_at) = decode_varint(data, rest_at);
    let ghost inner = data@.skip(inner_at as int);
    assert(after(rest, varint_at(rest, 0).1) =~= inner);
    let wire: u64 = tag & 7;
    assert(data.len() <= usize::MAX);
    if wire == 0 {
        if inner_at == rest_at {
            return (None, None);
        }
        (None, Some(inner_at))
    } else if wire == 1 {
        let next = advance(rest_at, 8);
        assert(after(data@, next as int) =~= after(rest, 8));
        (None, Some(next))
    } else if wire == 2 {
        if inner_at == rest_at {
            return (None, None);
        }
        let length: usize = number as usize;
        if length > data.len() - inner_at {
            return (None, None);
        }
        let raw = vstd::slice::slice_subrange(data, inner_at, inner_at + length);
        assert(raw@ =~= inner.take(length as int));
        assert(after(data@, inner_at + length) =~= after(inner, length as int));
        if length > 5 {
            match crate::text::from_utf8(raw) {
                Some(value) => {
                    proof {
                        vstd::utf8::encode_utf8_decode_utf8(value@);
                    }
                    (Some(value), Some(inner_at + length))
                },
                None => (None, Some(inner_at + length)),
            }
        } else {
            (None, Some(inner_at + length))
        }
    } else if wire == 5 {
        let next = advance(rest_at, 4);
        assert(after(data@, next as int) =~= after(rest, 4));
        (None, Some(next))
    } else {
        (None, None)
    }
}

/// The text that a field gives, as a sequence.
spec fn field_texts(text: Option<String>) -> Seq<Seq<char>> {
    match text {
        Some(text) => seq![text@],
        None => seq![],
    }
}

/// The texts of the fields from `next` on.
spec fn field_rest(data: Seq<u8>, next: Option<usize>) -> Seq<Seq<char>> {
    match next {
        Some(next) => extracted(after(data, next as int)),
        None => seq![],
    }
}

/// The texts of more than five bytes that the length-delimited fields of a
/// message hold, in order.
pub fn extract_strings(data: &[u8]) -> (r: Vec<String>)
    ensures
        crate::text::views(r@) == extracted(data@),
{
    let mut strings: Vec<String> = Vec::new();
    let mut i: usize = 0;
    assert(after(data@, 0) =~= data@);
    while i < data.len()
        invariant
            crate::text::views(strings@) + extracted(after(data@, i as int)) == extracted(data@),
        decreases
            if i <= data@.len() {
                data@.len() - i
            } else {
                0
            },
    {
        let ghost before = crate::text::views(strings@);
        let (text, next) = read_field(data, i);
        assert(before + (field_texts(text) + field_rest(data@, next)) =~= (before + field_texts(
            text,
        )) + field_rest(data@, next));
        let ghost texts = field_texts(text);
        if let Some(value) = text {
            strings.push(value);
        }
        assert(crate::text::views(strings@) =~= before + texts);
        match next {
            Some(at) => {
                i = at;
            },
            None => {
                assert(crate::text::views(strings@) + seq![] =~= crate::text::views(strings@));
                return strings;
            },
        }
    }
    assert(after(data@, i as int) =~= seq![]);
    assert(crate::text::views(strings@) + seq![] =~= crate::text::views(strings@));
    strings
}

/// A varint reads back as the value that was written, wherever it stands
/// before other bytes, and takes exactly its own bytes.
pub proof fn law_varint_round_trip(value: u64, rest: Seq<u8>)
    ensures
        varint_at(varint_bytes(value as nat) + rest, 0) == (
            value,
            varint_bytes(value as nat).len() as int,
        ),
{
    let written = varint_bytes(value as nat);
    let all = written + rest;
    lemma_varint_shape(value as nat);
    lemma_varint_len_is(all, written.len() as int);
    assert(all.skip(0) =~= all);
    assert(all.take(written.len() as int) =~= written);
    assert((value << 0) >> 0 == value && 0 | (value << 0) == value) by (bit_vector);
    lemma_varint_value(seq![], value);
    assert(seq![] + written =~= written);
}

/// Every byte of a varint but the last has its high bit set.
proof fn lemma_varint_shape(value: nat)
    ensures
        varint_bytes(value).len() > 0,
        varint_bytes(value).last() < 128,
        forall|i: int|
            0 <= i < varint_bytes(value).len() - 1 ==> (#[trigger] varint_bytes(value)[i]) >= 128,
    decreases value,
{
    if value >= 128 {
        lemma_varint_shape(value / 128);
        let tail = varint_bytes(value / 128);
        assert forall|i: int| 0 <= i < varint_bytes(value).len() - 1 implies (
        #[trigger] varint_bytes(value)[i]) >= 128 by {
            if i > 0 {
                assert(varint_bytes(value)[i] == tail[i - 1]);
            }
        }
    }
}

/// The bytes of `x` behind `group.len()` other bytes add `x`, shifted to its place.
proof fn lemma_varint_value(group: Seq<u8>, x: u64)
    requires
        7 * group.len() < 64,
        ((x << (7 * group.len()) as u64) >> (7 * group.len()) as u64) == x,
    ensures
        varint_value(group + varint_bytes(x as nat)) == varint_value(group) | (x << (7
            * group.len()) as u64),
    decreases x,
{
    let s = (7 * group.len()) as u64;
    let v = varint_value(group);
    if x < 128 {
        let b = x as u8;
        assert(group + varint_bytes(x as nat) =~= group.push(b));
        assert(group.push(b).drop_last() =~= group);
        assert(x < 128 ==> ((x as u8) & 0x7f) as u64 == x) by (bit_vector);
    } else {
        let b = (x % 128 + 128) as u8;
        let t = (s + 7) as u64;
        let y = x >> 7;
        assert(x >= 128 && s < 64 && ((x << s) >> s) == x ==> s + 7 < 64) by (bit_vector);
        assert(((x << s) >> s) == x && s + 7 < 64 && t == s + 7 && y == x >> 7 ==> ((y << t) >> t)
            == y && ((x & 0x7f) << s) | (y << t) == x << s) by (bit_vector);
        assert(y == x >> 7 ==> y == x / 128) by (bit_vector);
        assert(b == (x % 128 + 128) as u8 ==> (b & 0x7f) as u64 == x & 0x7f) by (bit_vector);
        let next = group.push(b);
        assert(group + varint_bytes(x as nat) =~= next + varint_bytes(y as nat));
        assert(next.drop_last() =~= group);
        lemma_varint_value(next, y);
        let low = (x & 0x7f) << s;
        let high = y << t;
        assert((v | low) | high == v | (low | high)) by (bit_vector);
    }
}

/// A text field reads back: of a message that starts with it, `extract_strings`
/// gives the text first, where it is longer than five bytes, then the texts of the rest.
pub proof fn law_extract_string_field(field: u64, text: Seq<char>, rest: Seq<u8>)
    requires
        vstd::utf8::encode_utf8(text).len() <= usize::MAX,
    ensures
        extracted(bytes_field(field, vstd::utf8::encode_utf8(text)) + rest) == (if
        vstd::utf8::encode_utf8(text).len() > 5 {
            seq![text]
        } else {
            seq![]
        }) + extracted(rest),
{
    let raw = vstd::utf8::encode_utf8(text);
    let tag = tag_value(field, 2);
    let tag_bytes = varint_bytes(tag as nat);
    let len_bytes = varint_bytes(raw.len());
    let all = bytes_field(field, raw) + rest;
    vstd::utf8::encode_utf8_valid_utf8(text);
    vstd::utf8::encode_utf8_decode_utf8(text);
    assert(((field << 3) | 2) & 7 == 2) by (bit_vector);
    assert(all =~= tag_bytes + (len_bytes + raw + rest));
    law_varint_round_trip(tag, len_bytes + raw + rest);
    let body = after(all, tag_bytes.len() as int);
    assert(body =~= len_bytes + (raw + rest));
    lemma_varint_shape(raw.len());
    law_varint_round_trip(raw.len() as u64, raw + rest);
    let inner = after(body, len_bytes.len() as int);
    assert(inner =~= raw + rest);
    assert(inner.take(raw.len() as int) =~= raw);
    assert(after(inner, raw.len() as int) =~= rest);
}

/// A varint field holds no text: `extract_strings` goes on behind it.
pub proof fn law_extract_varint_field(field: u64, value: u64, rest: Seq<u8>)
    ensures
        extracted(varint_field(field, value) + rest) == extracted(rest),
{
    let tag = tag_value(field, 0);
    let tag_bytes = varint_bytes(tag as nat);
    let value_bytes = varint_bytes(value as nat);
    let all = varint_field(field, value) + rest;
    assert(((field << 3) | 0) & 7 == 0) by (bit_vector);
    assert(all =~= tag_bytes + (value_bytes + rest));
    law_varint_round_trip(tag, value_bytes + rest);
    let body = after(all, tag_bytes.len() as int);
    assert(body =~= value_bytes + rest);
    lemma_varint_shape(value as nat);
    law_varint_round_trip(value, rest);
    assert(after(body, value_bytes.len() as int) =~= rest);
}

/// `n` as four bytes, the highest first.
pub open spec fn big_endian(n: nat) -> Seq<u8> {
    seq![
        (n / 0x100_0000 % 256) as u8,
        (n / 0x1_0000 % 256) as u8,
        (n / 0x100 % 256) as u8,
        (n % 256) as u8,
    ]
}

/// The number that the four bytes from the second on stand for.
pub open spec fn frame_length(data: Seq<u8>) -> int {
    data[1] * 0x100_0000 + data[2] * 0x1_0000 + data[3] * 0x100 + data[4]
}

/// Whether bytes start as a gzip stream does.
pub open spec fn has_gzip_mark(data: Seq<u8>) -> bool {
    data.len() >= 2 && data[0] == 0x1f && data[1] == 0x8b
}

/// What gzip compression makes of `data`.
pub uninterp spec fn gzip_output(data: Seq<u8>) -> Seq<u8>;

/// What gzip decompression makes of `data`, where it is a gzip stream.
pub uninterp spec fn gunzip_output(data: Seq<u8>) -> Option<Seq<u8>>;

/// The error of a reader or writer.
#[verifier::external_type_specification]
#[verifier::external_body]
pub struct ExIoError(std::io::Error);

/// `flate2::write::GzEncoder` at the default level, over a buffer. It writes into
/// memory, so it does not fail. What it writes depends on `data` alone, starts with
/// the two bytes that mark a gzip stream, and a `GzDecoder` reads `data` back from it.
#[verifier::external_body]
pub fn gzip_compress(data: &[u8]) -> (r: Result<Vec<u8>, std::io::Error>)
    ensures
        r is Ok,
        r matches Ok(out) ==> {
            &&& out@ == gzip_output(data@)
            &&& gunzip_output(out@) == Some(data@)
            &&& has_gzip_mark(out@)
        },
{
    let mut encoder = flate2::write::GzEncoder::new(Vec::new(), flate2::Compression::default());
    std::io::Write::write_all(&mut encoder, data)?;
    encoder.finish()
}

/// `flate2::read::GzDecoder` over `data`, read to the end of its stream. The
/// outcome depends on `data` alone.
#[verifier::external_body]
pub fn gzip_decompress(data: &[u8]) -> (r: Result<Vec<u8>, std::io::Error>)
    ensures
        match r {
            Ok(out) => gunzip_output(data@) == Some(out@),
            Err(_) => gunzip_output(data@) is None,
        },
{
    let mut decoder = flate2::read::GzDecoder::new(data);
    let mut out = Vec::new();
    std::io::Read::read_to_end(&mut decoder, &mut out)?;
    Ok(out)
}

/// A frame: its flags, the length of its payload, and the payload.
pub open spec fn frame(flags: u8, payload: Seq<u8>) -> Seq<u8> {
    seq![flags] + big_endian(payload.len()) + payload
}

/// The payload that a frame for `message` carries.
pub open spec fn frame_payload(message: Seq<u8>, compress: bool) -> Seq<u8> {
    if compress {
        gzip_output(message)
    } else {
        message
    }
}

/// The message that a frame's payload holds. Flags 1 and 3 mark a gzip stream;
/// a payload that is none is taken as it is.
pub open spec fn frame_message(flags: u8, payload: Seq<u8>) -> Seq<u8> {
    if flags == 1 || flags == 3 {
        match gunzip_output(payload) {
            Some(out) => out,
            None => payload,
        }
    } else {
        payload
    }
}

/// The messages of the whole frames at the start of `data`, in order.
pub open spec fn frame_messages(data: Seq<u8>) -> Seq<Seq<u8>>
    decreases data.len(),
{
    if data.len() < 5 || data.len() - 5 < frame_length(data) {
        seq![]
    } else {
        let end = 5 + frame_length(data);
        seq![frame_message(data[0], data.subrange(5, end))] + frame_messages(data.skip(end))
    }
}

/// The contents of a sequence of buffers.
pub open spec fn buffers(data: Seq<Vec<u8>>) -> Seq<Seq<u8>> {
    Seq::new(data.len(), |i: int| data[i]@)
}

/// Whether `data` is a frame for `message`, plain or compressed, that its length
/// can describe.
pub open spec fn is_frame_of(data: Seq<u8>, message: Seq<u8>) -> bool {
    ||| message.len() < 0x1_0000_0000 && data == frame(0, message)
    ||| gzip_output(message).len() < 0x1_0000_0000 && data == frame(1, gzip_output(message))
        && gunzip_output(gzip_output(message)) == Some(message)
}

/// Puts `proto_bytes` into a frame, which is one for it wherever its payload is
/// shorter than 4 GiB.
pub fn connect_frame_encode(proto_bytes: &[u8], compress: bool) -> (r: Vec<u8>)
    ensures
        r@ == frame(
            if compress {
                1
            } else {
                0
            },
            frame_payload(proto_bytes@, compress),
        ),
        frame_payload(proto_bytes@, compress).len() < 0x1_0000_0000 ==> is_frame_of(
            r@,
            proto_bytes@,
        ),
{
    let flags: u8 = if compress {
        1
    } else {
        0
    };
    let payload = if compress {
        match gzip_compress(proto_bytes) {
            Ok(out) => out,
            Err(_) => bytes::copied(proto_bytes),
        }
    } else {
        bytes::copied(proto_bytes)
    };
    let n: usize = payload.len();
    let mut out: Vec<u8> = Vec::new();
    out.push(flags);
    out.push((n / 0x100_0000 % 256) as u8);
    out.push((n / 0x1_0000 % 256) as u8);
    out.push((n / 0x100 % 256) as u8);
    out.push((n % 256) as u8);
    bytes::append(&mut out, &payload);
    assert(out@ =~= frame(flags, payload@));
    out
}

/// The four bytes of a number stand for it.
proof fn lemma_big_endian(n: u32)
    ensures
        n == (n / 0x100_0000 % 256) * 0x100_0000 + (n / 0x1_0000 % 256) * 0x1_0000 + (n / 0x100
            % 256) * 0x100 + n % 256,
{
    assert(n == (n / 0x100_0000 % 256) * 0x100_0000 + (n / 0x1_0000 % 256) * 0x1_0000 + (n / 0x100
        % 256) * 0x100 + n % 256) by (bit_vector);
}

/// The frame at the start of a stream is read whole, and reading goes on behind it.
proof fn lemma_frame_round_trip(flags: u8, payload: Seq<u8>, rest: Seq<u8>)
    requires
        payload.len() < 0x1_0000_0000,
    ensures
        frame_messages(frame(flags, payload) + rest) == seq![frame_message(flags, payload)]
            + frame_messages(rest),
{
    let all = frame(flags, payload) + rest;
    let n = payload.len() as int;
    lemma_big_endian(n as u32);
    assert(all[0] == flags);
    assert(frame_length(all) == n);
    assert(all.subrange(5, 5 + n) =~= payload);
    assert(all.skip(5 + n) =~= rest);
}

/// The messages of the whole frames at the start of `data`, in order.
pub fn connect_frame_decode(data: &[u8]) -> (r: Vec<Vec<u8>>)
    ensures
        buffers(r@) == frame_messages(data@),
{
    let mut frames: Vec<Vec<u8>> = Vec::new();
    let mut i: usize = 0;
    assert(data@.skip(0) =~= data@);
    while data.len() - i >= 5
        invariant
            i <= data@.len(),
            buffers(frames@) + frame_messages(data@.skip(i as int)) == frame_messages(data@),
        decreases data@.len() - i,
    {
        let ghost here = data@.skip(i as int);
        let ghost before = buffers(frames@);
        let flags: u8 = data[i];
        let length: u64 = data[i + 1] as u64 * 0x100_0000 + data[i + 2] as u64 * 0x1_0000 + data[i
            + 3] as u64 * 0x100 + data[i + 4] as u64;
        assert(length == frame_length(here));
        let left: usize = data.len() - i - 5;
        if length > left as u64 {
            assert(before + seq![] =~= before);
            return frames;
        }
        let end: usize = i + 5 + length as usize;
        let payload = vstd::slice::slice_subrange(data, i + 5, end);
        assert(payload@ =~= here.subrange(5, 5 + frame_length(here)));
        let message = if flags == 1 || flags == 3 {
            match gzip_decompress(payload) {
                Ok(out) => out,
                Err(_) => bytes::copied(payload),
            }
        } else {
            bytes::copied(payload)
        };
        frames.push(message);
        assert(buffers(frames@) =~= before.push(message@));
        assert(here.skip(5 + frame_length(here)) =~= data@.skip(end as int));
        assert(buffers(frames@) + frame_messages(data@.skip(end as int)) =~= before + (seq![
            message@,
        ] + frame_messages(data@.skip(end as int))));
        i = end;
    }
    assert(buffers(frames@) + seq![] =~= buffers(frames@));
    frames
}

/// Frames, one after the other.
pub open spec fn stream(frames: Seq<Seq<u8>>) -> Seq<u8>
    decreases frames.len(),
{
    if frames.len() == 0 {
        seq![]
    } else {
        frames[0] + stream(frames.skip(1))
    }
}

/// A frame reads back, plain or compressed, whatever stands behind it.
pub proof fn law_frame_round_trip(data: Seq<u8>, message: Seq<u8>, rest: Seq<u8>)
    requires
        is_frame_of(data, message),
    ensures
        frame_messages(data + rest) == seq![message] + frame_messages(rest),
{
    if message.len() < 0x1_0000_0000 && data == frame(0, message) {
        lemma_frame_round_trip(0, message, rest);
    } else {
        lemma_frame_round_trip(1, gzip_output(message), rest);
    }
}

/// Any frames, each plain or compressed, read back in their order, and one
/// behind them that is cut off adds nothing. Where `kept` is zero there is none.
pub proof fn law_frames_read_back(
    frames: Seq<Seq<u8>>,
    messages: Seq<Seq<u8>>,
    flags: u8,
    payload: Seq<u8>,
    kept: int,
)
    requires
        frames.len() == messages.len(),
        forall|i: int| 0 <= i < frames.len() ==> is_frame_of(#[trigger] frames[i], messages[i]),
        payload.len() < 0x1_0000_0000,
        0 <= kept < 5 + payload.len(),
    ensures
        frame_messages(stream(frames) + frame(flags, payload).take(kept)) == messages,
    decreases frames.len(),
{
    let tail = frame(flags, payload).take(kept);
    if frames.len() == 0 {
        law_cut_off_frame_is_dropped(flags, payload, kept);
        assert(stream(frames) + tail =~= tail);
        assert(messages =~= seq![]);
    } else {
        let rest = frames.skip(1);
        assert forall|i: int| 0 <= i < rest.len() implies is_frame_of(
            #[trigger] rest[i],
            messages.skip(1)[i],
        ) by {
            assert(rest[i] == frames[i + 1]);
        }
        law_frames_read_back(rest, messages.skip(1), flags, payload, kept);
        assert(is_frame_of(frames[0], messages[0]));
        law_frame_round_trip(frames[0], messages[0], stream(rest) + tail);
        assert(stream(frames) + tail =~= frames[0] + (stream(rest) + tail));
        assert(seq![messages[0]] + messages.skip(1) =~= messages);
    }
}

/// A frame that is cut off anywhere gives no message.
pub proof fn law_cut_off_frame_is_dropped(flags: u8, payload: Seq<u8>, kept: int)
    requires
        payload.len() < 0x1_0000_0000,
        0 <= kept < 5 + payload.len(),
    ensures
        frame_messages(frame(flags, payload).take(kept)) == Seq::<Seq<u8>>::empty(),
{
    let all = frame(flags, payload);
    let n = payload.len() as int;
    let cut = all.take(kept);
    lemma_big_endian(n as u32);
    if kept >= 5 {
        assert(frame_length(cut) == n);
    }
}

} // verus!
