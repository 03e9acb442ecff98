//! Write-ahead log record codec.
//!
//! Each record is framed as: the magic "GWAL", a version byte, the document
//! version (8 bytes big-endian), the op type (1 = insert, 2 = delete), the
//! payload length (4 bytes big-endian), the payload, and a CRC-32 over the
//! type byte, length and payload. A corrupt or truncated suffix terminates
//! replay without invalidating the records before it.

use vstd::prelude::*;

verus! {

/// CRC-32 of a byte sequence: a function of the bytes alone.
pub uninterp spec fn crc32_of(data: Seq<u8>) -> u32;

/// Relies on crc32fast::hash: the IEEE CRC-32 checksum of the bytes.
#[verifier::external_body]
fn crc32(data: &[u8]) -> (r: u32)
    ensures
        r == crc32_of(data@),
{
    crc32fast::hash(data)
}

/// Edit operation for WAL records.
pub enum EditOp {
    Insert { idx: u64, bytes: Vec<u8> },
    Delete { range: core::ops::Range<u64> },
}

/// WAL edit record with document version.
pub struct EditRecord {
    pub doc_v: u64,
    pub op: EditOp,
}

/// Mathematical image of an edit operation.
#[verifier::ext_equal]
pub enum EditOpV {
    Insert { idx: u64, bytes: Seq<u8> },
    Delete { start: u64, end: u64 },
}

/// Mathematical image of a record.
#[verifier::ext_equal]
pub struct EditRecordV {
    pub doc_v: u64,
    pub op: EditOpV,
}

impl View for EditOp {
    type V = EditOpV;

    open spec fn view(&self) -> EditOpV {
        match self {
            EditOp::Insert { idx, bytes } => EditOpV::Insert { idx: *idx, bytes: bytes@ },
            EditOp::Delete { range } => EditOpV::Delete { start: range.start, end: range.end },
        }
    }
}

impl View for EditRecord {
    type V = EditRecordV;

    open spec fn view(&self) -> EditRecordV {
        EditRecordV { doc_v: self.doc_v, op: self.op@ }
    }
}

/// 256 to the `n`.
pub open spec fn pow256(n: nat) -> int
    decreases n,
{
    if n == 0 {
        1
    } else {
        256 * pow256((n - 1) as nat)
    }
}

/// The `n`-byte big-endian encoding of `v`.
pub open spec fn be_bytes(v: int, n: nat) -> Seq<u8>
    decreases n,
{
    if n == 0 {
        seq![]
    } else {
        be_bytes(v / 256, (n - 1) as nat) + seq![(v % 256) as u8]
    }
}

/// The integer read big-endian from `s`.
pub open spec fn from_be(s: Seq<u8>) -> int
    decreases s.len(),
{
    if s.len() == 0 {
        0
    } else {
        from_be(s.drop_last()) * 256 + s.last()
    }
}

pub proof fn lemma_be_bytes_len(v: int, n: nat)
    ensures
        be_bytes(v, n).len() == n,
    decreases n,
{
    if n > 0 {
        lemma_be_bytes_len(v / 256, (n - 1) as nat);
    }
}

pub proof fn lemma_from_be_bound(s: Seq<u8>)
    ensures
        0 <= from_be(s) < pow256(s.len()),
    decreases s.len(),
{
    if s.len() > 0 {
        lemma_from_be_bound(s.drop_last());
        assert(pow256(s.len()) == 256 * pow256((s.len() - 1) as nat));
    }
}

/// Reading back the big-endian encoding of an in-range value yields the
/// value.
pub proof fn lemma_be_round_trip(v: int, n: nat)
    requires
        0 <= v < pow256(n),
    ensures
        from_be(be_bytes(v, n)) == v,
    decreases n,
{
    if n == 0 {
    } else {
        lemma_be_bytes_len(v / 256, (n - 1) as nat);
        let s = be_bytes(v, n);
        assert(s.drop_last() =~= be_bytes(v / 256, (n - 1) as nat));
        assert(s.last() == (v % 256) as u8);
        assert(v / 256 < pow256((n - 1) as nat)) by (nonlinear_arith)
            requires
                0 <= v < 256 * pow256((n - 1) as nat),
        ;
        lemma_be_round_trip(v / 256, (n - 1) as nat);
    }
}

/// Append the `n`-byte big-endian encoding of `v`.
pub fn push_be(out: &mut Vec<u8>, v: u64, n: usize)
    requires
        n <= 8,
    ensures
        final(out)@ == old(out)@ + be_bytes(v as int, n as nat),
    decreases n,
{
    if n == 0 {
        proof {
            assert(old(out)@ + be_bytes(v as int, 0) =~= old(out)@);
        }
        return ;
    }
    push_be(out, v / 256, n - 1);
    out.push((v % 256) as u8);
    proof {
        assert(old(out)@ + be_bytes(v as int / 256, (n - 1) as nat) + seq![(v as int % 256) as u8]
            =~= old(out)@ + be_bytes(v as int, n as nat));
    }
}

/// Read an `n`-byte big-endian integer at `start`.
pub fn read_be(data: &[u8], start: usize, n: usize) -> (r: u64)
    requires
        n <= 8,
        start + n <= data@.len(),
    ensures
        r as int == from_be(data@.subrange(start as int, start as int + n)),
{
    let dn = data.len();
    let mut acc: u64 = 0;
    let mut i: usize = 0;
    proof {
        assert(data@.subrange(start as int, start as int) =~= Seq::<u8>::empty());
        lemma_pow256_le(0, 8);
    }
    while i < n
        invariant
            i <= n <= 8,
            start + n <= data@.len(),
            dn == data@.len(),
            acc as int == from_be(data@.subrange(start as int, start as int + i)),
            (acc as int) < pow256(i as nat),
        decreases n - i,
    {
        proof {
            let sub = data@.subrange(start as int, start as int + i + 1);
            assert(sub.drop_last() =~= data@.subrange(start as int, start as int + i));
            assert(sub.last() == data@[start as int + i]);
            lemma_pow256_le((i + 1) as nat, 8);
            assert(pow256((i + 1) as nat) == 256 * pow256(i as nat));
            lemma_pow256_value();
        }
        acc = acc * 256 + (data[start + i] as u64);
        i = i + 1;
    }
    acc
}

/// The concrete powers of 256 the codec reads with.
pub proof fn lemma_pow256_value()
    ensures
        pow256(4) == 0x100000000,
        pow256(8) == 0x10000000000000000,
{
    assert(pow256(0) == 1);
    assert(pow256(1) == 256);
    assert(pow256(2) == 0x10000);
    assert(pow256(3) == 0x1000000);
    assert(pow256(4) == 0x100000000);
    assert(pow256(5) == 0x10000000000);
    assert(pow256(6) == 0x1000000000000);
    assert(pow256(7) == 0x100000000000000);
    assert(pow256(8) == 0x10000000000000000);
}

/// Powers of 256 grow with the exponent.
pub proof fn lemma_pow256_le(a: nat, b: nat)
    requires
        a <= b,
    ensures
        0 < pow256(a) <= pow256(b),
    decreases b,
{
    if b > 0 {
        if a == b {
            lemma_pow256_le(0, (b - 1) as nat);
            assert(pow256(b) == 256 * pow256((b - 1) as nat));
        } else {
            lemma_pow256_le(a, (b - 1) as nat);
            assert(pow256(b) == 256 * pow256((b - 1) as nat));
        }
    }
}

/// The serialized payload of an operation.
pub open spec fn payload_bytes(op: EditOpV) -> Seq<u8> {
    match op {
        EditOpV::Insert { idx, bytes } => be_bytes(idx as int, 8) + bytes,
        EditOpV::Delete { start, end } => be_bytes(start as int, 8) + be_bytes(end as int, 8),
    }
}

/// The record type byte of an operation.
pub open spec fn type_byte(op: EditOpV) -> u8 {
    match op {
        EditOpV::Insert { .. } => 1u8,
        EditOpV::Delete { .. } => 2u8,
    }
}

/// The section covered by the checksum: type byte, payload length, payload.
pub open spec fn type_section(op: EditOpV) -> Seq<u8> {
    seq![type_byte(op)] + be_bytes(payload_bytes(op).len() as int, 4) + payload_bytes(op)
}

/// The magic that opens every record.
pub open spec fn wal_magic() -> Seq<u8> {
    seq![71u8, 87u8, 65u8, 76u8]
}

/// The full serialized form of a record.
pub open spec fn record_bytes(r: EditRecordV) -> Seq<u8> {
    wal_magic() + seq![1u8] + be_bytes(r.doc_v as int, 8) + type_section(r.op) + be_bytes(
        crc32_of(type_section(r.op)) as int,
        4,
    )
}

/// A record can be framed when its payload length fits the length field.
pub open spec fn record_wf(r: EditRecordV) -> bool {
    payload_bytes(r.op).len() < 0x100000000
}

impl EditRecord {
    /// Serialize this record.
    pub fn encode(&self) -> (r: Vec<u8>)
        requires
            record_wf(self@),
        ensures
            r@ == record_bytes(self@),
    {
        let mut payload: Vec<u8> = Vec::new();
        match &self.op {
            EditOp::Insert { idx, bytes } => {
                push_be(&mut payload, *idx, 8);
                let mut k: usize = 0;
                let m = bytes.len();
                while k < m
                    invariant
                        k <= m,
                        m == bytes@.len(),
                        payload@ == be_bytes(*idx as int, 8) + bytes@.subrange(0, k as int),
                    decreases m - k,
                {
                    payload.push(bytes[k]);
                    proof {
                        assert(payload@ =~= be_bytes(*idx as int, 8) + bytes@.subrange(
                            0,
                            k as int + 1,
                        ));
                    }
                    k = k + 1;
                }
                proof {
                    assert(bytes@.subrange(0, m as int) =~= bytes@);
                    assert(payload@ =~= payload_bytes(self@.op));
                }
            },
            EditOp::Delete { range } => {
                push_be(&mut payload, range.start, 8);
                push_be(&mut payload, range.end, 8);
                proof {
                    assert(payload@ =~= payload_bytes(self@.op));
                }
            },
        }
        let mut section: Vec<u8> = Vec::new();
        match &self.op {
            EditOp::Insert { .. } => section.push(1u8),
            EditOp::Delete { .. } => section.push(2u8),
        }
        proof {
            lemma_be_bytes_len(self@.doc_v as int, 8);
        }
        push_be(&mut section, payload.len() as u64, 4);
        let mut q: usize = 0;
        let pl = payload.len();
        while q < pl
            invariant
                q <= pl,
                pl == payload@.len(),
                payload@ == payload_bytes(self@.op),
                section@ == seq![type_byte(self@.op)] + be_bytes(pl as int, 4) + payload@.subrange(
                    0,
                    q as int,
                ),
            decreases pl - q,
        {
            section.push(payload[q]);
            proof {
                assert(section@ =~= seq![type_byte(self@.op)] + be_bytes(pl as int, 4)
                    + payload@.subrange(0, q as int + 1));
            }
            q = q + 1;
        }
        proof {
            assert(payload@.subrange(0, pl as int) =~= payload@);
            assert(section@ =~= type_section(self@.op));
        }
        let checksum = crc32(section.as_slice());
        let mut out: Vec<u8> = Vec::new();
        out.push(71u8);
        out.push(87u8);
        out.push(65u8);
        out.push(76u8);
        out.push(1u8);
        push_be(&mut out, self.doc_v, 8);
        let mut w: usize = 0;
        let sl = section.len();
        proof {
            assert(out@ =~= wal_magic() + seq![1u8] + be_bytes(self@.doc_v as int, 8));
        }
        while w < sl
            invariant
                w <= sl,
                sl == section@.len(),
                section@ == type_section(self@.op),
                checksum == crc32_of(type_section(self@.op)),
                out@ == wal_magic() + seq![1u8] + be_bytes(self@.doc_v as int, 8)
                    + section@.subrange(0, w as int),
            decreases sl - w,
        {
            out.push(section[w]);
            proof {
                assert(out@ =~= wal_magic() + seq![1u8] + be_bytes(self@.doc_v as int, 8)
                    + section@.subrange(0, w as int + 1));
            }
            w = w + 1;
        }
        proof {
            assert(section@.subrange(0, sl as int) =~= section@);
        }
        push_be(&mut out, checksum as u64, 4);
        proof {
            assert(out@ =~= record_bytes(self@));
        }
        out
    }
}

/// The payload length field of the record at the head of `b`.
pub open spec fn head_payload_len(b: Seq<u8>) -> int {
    from_be(b.subrange(14, 18))
}

/// Whether a complete, well-formed record with a matching checksum starts at
/// the head of `b`.
pub open spec fn head_ok(b: Seq<u8>) -> bool {
    &&& b.len() >= 22
    &&& b.subrange(0, 4) == wal_magic()
    &&& b[4] == 1u8
    &&& b.len() >= 22 + head_payload_len(b)
    &&& from_be(b.subrange(18 + head_payload_len(b), 22 + head_payload_len(b))) == crc32_of(
        b.subrange(13, 18 + head_payload_len(b)),
    )
    &&& (b[13] == 1u8 && head_payload_len(b) >= 8 || b[13] == 2u8 && head_payload_len(b) == 16)
}

/// The record at the head of `b`, assuming `head_ok(b)`.
pub open spec fn head_rec(b: Seq<u8>) -> EditRecordV {
    let l = head_payload_len(b);
    EditRecordV {
        doc_v: from_be(b.subrange(5, 13)) as u64,
        op: if b[13] == 1u8 {
            EditOpV::Insert {
                idx: from_be(b.subrange(18, 26)) as u64,
                bytes: b.subrange(26, 18 + l),
            }
        } else {
            EditOpV::Delete {
                start: from_be(b.subrange(18, 26)) as u64,
                end: from_be(b.subrange(26, 34)) as u64,
            }
        },
    }
}

/// The records recovered from a WAL byte stream: parse complete well-formed
/// records from the front, and stop at the first malformed, corrupt or
/// truncated one.
pub open spec fn parse_wal(b: Seq<u8>) -> Seq<EditRecordV>
    decreases b.len(),
{
    if head_ok(b) && b.len() - 22 - head_payload_len(b) < b.len() {
        seq![head_rec(b)] + parse_wal(b.skip(22 + head_payload_len(b)))
    } else {
        seq![]
    }
}


/// The mathematical images of a vector of records.
pub open spec fn rec_views(v: Seq<EditRecord>) -> Seq<EditRecordV> {
    v.map_values(|r: EditRecord| r@)
}

/// Parse a WAL byte stream into records, stopping at the first malformed,
/// corrupt or truncated record.
pub fn decode_records(data: &[u8]) -> (r: Vec<EditRecord>)
    ensures
        rec_views(r@) == parse_wal(data@),
{
    let dn = data.len();
    let mut out: Vec<EditRecord> = Vec::new();
    let mut pos: usize = 0;
    proof {
        assert(data@.skip(0) =~= data@);
        assert(rec_views(out@) =~= Seq::<EditRecordV>::empty());
        assert(Seq::<EditRecordV>::empty() + parse_wal(data@) =~= parse_wal(data@));
    }
    loop
        invariant
            pos <= dn,
            dn == data@.len(),
            parse_wal(data@) == rec_views(out@) + parse_wal(data@.skip(pos as int)),
        ensures
            rec_views(out@) == parse_wal(data@),
        decreases dn - pos,
    {
        let ghost b = data@.skip(pos as int);
        proof {
            assert(b.len() == dn - pos);
        }
        let rem = dn - pos;
        if rem < 22 {
            proof {
                assert(!head_ok(b));
                assert(parse_wal(b) =~= Seq::<EditRecordV>::empty());
                assert(rec_views(out@) + parse_wal(b) =~= rec_views(out@));
            }
            break ;
        }
        proof {
            assert(forall|a: int, c: int|
                0 <= a <= c <= b.len() ==> b.subrange(a, c) =~= data@.subrange(
                    pos as int + a,
                    pos as int + c,
                ));
            assert(b.subrange(0, 4) =~= data@.subrange(pos as int, pos as int + 4));
        }
        let magic_ok = data[pos] == 71u8 && data[pos + 1] == 87u8 && data[pos + 2] == 65u8
            && data[pos + 3] == 76u8 && data[pos + 4] == 1u8;
        if !magic_ok {
            proof {
                assert(!head_ok(b)) by {
                    if head_ok(b) {
                        assert(b.subrange(0, 4)[0] == 71u8);
                        assert(b.subrange(0, 4)[1] == 87u8);
                        assert(b.subrange(0, 4)[2] == 65u8);
                        assert(b.subrange(0, 4)[3] == 76u8);
                        assert(b[4] == 1u8);
                    }
                }
                assert(parse_wal(b) =~= Seq::<EditRecordV>::empty());
                assert(rec_views(out@) + parse_wal(b) =~= rec_views(out@));
            }
            break ;
        }
        let l = read_be(data, pos + 14, 4);
        proof {
            assert(b.subrange(14, 18) =~= data@.subrange(pos as int + 14, pos as int + 18));
            assert(head_payload_len(b) == l as int);
            lemma_from_be_bound(b.subrange(14, 18));
            lemma_pow256_value();
        }
        if ((rem - 18) as u64) < l + 4 {
            proof {
                assert(b.len() < 22 + head_payload_len(b));
                assert(!head_ok(b));
                assert(parse_wal(b) =~= Seq::<EditRecordV>::empty());
                assert(rec_views(out@) + parse_wal(b) =~= rec_views(out@));
            }
            break ;
        }
        let lu = l as usize;
        let section = vstd::slice::slice_subrange(data, pos + 13, pos + 18 + lu);
        let checksum = crc32(section);
        let stored = read_be(data, pos + 18 + lu, 4);
        proof {
            assert(b.subrange(13, 18 + l as int) =~= data@.subrange(
                pos as int + 13,
                pos as int + 18 + l as int,
            ));
            assert(b.subrange(18 + l as int, 22 + l as int) =~= data@.subrange(
                pos as int + 18 + l as int,
                pos as int + 22 + l as int,
            ));
            assert(checksum == crc32_of(b.subrange(13, 18 + l as int)));
            assert(stored as int == from_be(b.subrange(18 + l as int, 22 + l as int)));
        }
        if stored != checksum as u64 {
            proof {
                assert(!head_ok(b));
                assert(parse_wal(b) =~= Seq::<EditRecordV>::empty());
                assert(rec_views(out@) + parse_wal(b) =~= rec_views(out@));
            }
            break ;
        }
        let typ = data[pos + 13];
        proof {
            assert(b[13] == typ);
        }
        let rec: EditRecord;
        if typ == 1u8 && l >= 8 {
            let idx = read_be(data, pos + 18, 8);
            let body = vstd::slice::slice_subrange(data, pos + 26, pos + 18 + lu);
            let bytes = vstd::slice::slice_to_vec(body);
            proof {
                assert(b.subrange(18, 26) =~= data@.subrange(pos as int + 18, pos as int + 26));
                assert(b.subrange(26, 18 + l as int) =~= data@.subrange(
                    pos as int + 26,
                    pos as int + 18 + l as int,
                ));
            }
            rec = EditRecord { doc_v: read_be(data, pos + 5, 8), op: EditOp::Insert { idx, bytes } };
            proof {
                assert(b.subrange(5, 13) =~= data@.subrange(pos as int + 5, pos as int + 13));
                assert(rec@ == head_rec(b));
            }
        } else if typ == 2u8 && l == 16 {
            let start = read_be(data, pos + 18, 8);
            let end = read_be(data, pos + 26, 8);
            proof {
                assert(b.subrange(18, 26) =~= data@.subrange(pos as int + 18, pos as int + 26));
                assert(b.subrange(26, 34) =~= data@.subrange(pos as int + 26, pos as int + 34));
            }
            rec = EditRecord {
                doc_v: read_be(data, pos + 5, 8),
                op: EditOp::Delete { range: start..end },
            };
            proof {
                assert(b.subrange(5, 13) =~= data@.subrange(pos as int + 5, pos as int + 13));
                assert(rec@ == head_rec(b));
            }
        } else {
            proof {
                assert(!head_ok(b));
                assert(parse_wal(b) =~= Seq::<EditRecordV>::empty());
                assert(rec_views(out@) + parse_wal(b) =~= rec_views(out@));
            }
            break ;
        }
        proof {
            assert(b.subrange(0, 4) =~= wal_magic());
            assert(head_ok(b));
            assert(parse_wal(b) == seq![head_rec(b)] + parse_wal(b.skip(22 + l as int)));
            assert(b.skip(22 + l as int) =~= data@.skip(pos as int + 22 + l as int));
        }
        let ghost prev = rec_views(out@);
        out.push(rec);
        proof {
            assert(rec_views(out@) =~= prev.push(rec@));
        }
        pos = pos + 22 + lu;
        proof {
            assert(rec_views(out@) + parse_wal(data@.skip(pos as int)) =~= parse_wal(data@));
        }
        if pos >= dn {
            proof {
                assert(data@.skip(pos as int) =~= Seq::<u8>::empty());
                assert(!head_ok(data@.skip(pos as int)));
                assert(parse_wal(data@.skip(pos as int)) =~= Seq::<EditRecordV>::empty());
                assert(rec_views(out@) + parse_wal(data@.skip(pos as int)) =~= rec_views(out@));
            }
            break ;
        }
    }
    out
}


/// The serialized form of a whole record stream.
pub open spec fn stream_bytes(rs: Seq<EditRecordV>) -> Seq<u8>
    decreases rs.len(),
{
    if rs.len() == 0 {
        seq![]
    } else {
        record_bytes(rs[0]) + stream_bytes(rs.skip(1))
    }
}

/// A serialized record at the head of a stream parses back to itself,
/// whatever follows it.
pub proof fn lemma_parse_record_prepend(r: EditRecordV, rest: Seq<u8>)
    requires
        record_wf(r),
    ensures
        record_bytes(r).len() == 22 + payload_bytes(r.op).len(),
        parse_wal(record_bytes(r) + rest) == seq![r] + parse_wal(rest),
{
    let pb = payload_bytes(r.op);
    let l = pb.len() as int;
    let ts = type_section(r.op);
    let rb = record_bytes(r);
    let b = rb + rest;
    lemma_be_bytes_len(r.doc_v as int, 8);
    lemma_be_bytes_len(l, 4);
    lemma_be_bytes_len(crc32_of(ts) as int, 4);
    match r.op {
        EditOpV::Insert { idx, bytes } => {
            lemma_be_bytes_len(idx as int, 8);
        },
        EditOpV::Delete { start, end } => {
            lemma_be_bytes_len(start as int, 8);
            lemma_be_bytes_len(end as int, 8);
        },
    }
    assert(ts.len() == 5 + l);
    assert(rb.len() == 22 + l);
    assert(b.subrange(0, 4) =~= wal_magic());
    assert(b[4] == 1u8);
    assert(b.subrange(5, 13) =~= be_bytes(r.doc_v as int, 8));
    assert(b.subrange(13, 18 + l) =~= ts);
    assert(b.subrange(14, 18) =~= be_bytes(l, 4));
    assert(b.subrange(18 + l, 22 + l) =~= be_bytes(crc32_of(ts) as int, 4));
    lemma_pow256_value();
    lemma_pow256_le(4, 8);
    lemma_be_round_trip(l, 4);
    lemma_be_round_trip(r.doc_v as int, 8);
    lemma_be_round_trip(crc32_of(ts) as int, 4);
    assert(head_payload_len(b) == l);
    assert(b[13] == type_byte(r.op));
    match r.op {
        EditOpV::Insert { idx, bytes } => {
            assert(b.subrange(18, 26) =~= be_bytes(idx as int, 8));
            assert(b.subrange(26, 18 + l) =~= bytes);
            lemma_be_round_trip(idx as int, 8);
            assert(l >= 8);
        },
        EditOpV::Delete { start, end } => {
            assert(b.subrange(18, 26) =~= be_bytes(start as int, 8));
            assert(b.subrange(26, 34) =~= be_bytes(end as int, 8));
            lemma_be_round_trip(start as int, 8);
            lemma_be_round_trip(end as int, 8);
            assert(l == 16);
        },
    }
    assert(head_ok(b));
    assert(head_rec(b) =~= r);
    assert(b.skip(22 + l) =~= rest);
    assert(parse_wal(b) == seq![head_rec(b)] + parse_wal(rest));
    assert(seq![head_rec(b)] =~= seq![r]);
}

/// A stream of well-formed records, followed by a tail that parses to
/// nothing, parses to exactly those records.
pub proof fn lemma_parse_stream(rs: Seq<EditRecordV>, tail: Seq<u8>)
    requires
        forall|i: int| 0 <= i < rs.len() ==> record_wf(#[trigger] rs[i]),
        parse_wal(tail) == Seq::<EditRecordV>::empty(),
    ensures
        parse_wal(stream_bytes(rs) + tail) == rs,
    decreases rs.len(),
{
    if rs.len() == 0 {
        assert(stream_bytes(rs) + tail =~= tail);
        assert(parse_wal(tail) =~= rs);
    } else {
        assert(forall|i: int|
            0 <= i < rs.skip(1).len() ==> record_wf(#[trigger] rs.skip(1)[i])) by {
            assert(forall|i: int|
                0 <= i < rs.skip(1).len() ==> rs.skip(1)[i] == rs[i + 1]);
        }
        lemma_parse_stream(rs.skip(1), tail);
        lemma_parse_record_prepend(rs[0], stream_bytes(rs.skip(1)) + tail);
        assert(stream_bytes(rs) + tail =~= record_bytes(rs[0]) + (stream_bytes(rs.skip(1))
            + tail));
        assert(seq![rs[0]] + rs.skip(1) =~= rs);
    }
}

/// A strict prefix of a serialized record parses to nothing: the torn tail a
/// crash leaves behind is discarded whole.
pub proof fn lemma_truncated_record_empty(r: EditRecordV, cut: int)
    requires
        record_wf(r),
        0 <= cut < record_bytes(r).len(),
    ensures
        parse_wal(record_bytes(r).subrange(0, cut)) == Seq::<EditRecordV>::empty(),
{
    let pb = payload_bytes(r.op);
    let l = pb.len() as int;
    let ts = type_section(r.op);
    let rb = record_bytes(r);
    let p = rb.subrange(0, cut);
    lemma_be_bytes_len(r.doc_v as int, 8);
    lemma_be_bytes_len(l, 4);
    lemma_be_bytes_len(crc32_of(ts) as int, 4);
    assert(ts.len() == 5 + l);
    assert(rb.len() == 22 + l);
    if cut < 22 {
        assert(!head_ok(p));
    } else {
        assert(p.subrange(14, 18) =~= rb.subrange(14, 18));
        assert(rb.subrange(14, 18) =~= be_bytes(l, 4));
        lemma_pow256_value();
        lemma_be_round_trip(l, 4);
        assert(head_payload_len(p) == l);
        assert(p.len() == cut < 22 + l);
        assert(!head_ok(p));
    }
    assert(parse_wal(p) =~= Seq::<EditRecordV>::empty());
}

/// Replay after a crash: a log holding a stream of complete records, with or
/// without the torn prefix of one further record at its end, parses to
/// exactly the complete records, so replaying it against the last durable
/// text reproduces every recorded edit and nothing else.
pub proof fn lemma_wal_replay(rs: Seq<EditRecordV>, torn: EditRecordV, cut: int)
    requires
        forall|i: int| 0 <= i < rs.len() ==> record_wf(#[trigger] rs[i]),
        record_wf(torn),
        0 <= cut < record_bytes(torn).len(),
    ensures
        parse_wal(stream_bytes(rs)) == rs,
        parse_wal(stream_bytes(rs) + record_bytes(torn).subrange(0, cut)) == rs,
{
    lemma_truncated_record_empty(torn, cut);
    lemma_parse_stream(rs, record_bytes(torn).subrange(0, cut));
    assert(parse_wal(Seq::<u8>::empty()) =~= Seq::<EditRecordV>::empty());
    lemma_parse_stream(rs, Seq::<u8>::empty());
    assert(stream_bytes(rs) + Seq::<u8>::empty() =~= stream_bytes(rs));
}

/// Whether an operation can be applied to a given text: its indices are in
/// range on character boundaries, and inserted bytes are valid UTF-8.
pub open spec fn op_applicable(t: Seq<u8>, op: EditOpV) -> bool {
    match op {
        EditOpV::Insert { idx, bytes } => idx <= t.len() && vstd::utf8::is_char_boundary(
            t,
            idx as int,
        ) && vstd::utf8::valid_utf8(bytes),
        EditOpV::Delete { start, end } => start <= end <= t.len()
            && vstd::utf8::is_char_boundary(t, start as int) && vstd::utf8::is_char_boundary(
            t,
            end as int,
        ),
    }
}

/// The text after applying one operation.
pub open spec fn apply_op(t: Seq<u8>, op: EditOpV) -> Seq<u8> {
    match op {
        EditOpV::Insert { idx, bytes } => t.subrange(0, idx as int) + bytes + t.subrange(
            idx as int,
            t.len() as int,
        ),
        EditOpV::Delete { start, end } => t.subrange(0, start as int) + t.subrange(
            end as int,
            t.len() as int,
        ),
    }
}

/// The text after replaying a record sequence; a record that does not apply
/// to the text it meets is skipped.
pub open spec fn apply_all(t: Seq<u8>, rs: Seq<EditRecordV>) -> Seq<u8>
    decreases rs.len(),
{
    if rs.len() == 0 {
        t
    } else {
        apply_all(
            if op_applicable(t, rs[0].op) {
                apply_op(t, rs[0].op)
            } else {
                t
            },
            rs.skip(1),
        )
    }
}

/// Apply one record to the buffer; reports whether it was applicable.
pub fn apply_record(buf: &mut crate::buffer::RopeBuffer, rec: &EditRecord) -> (ok: bool)
    requires
        old(buf).wf(),
    ensures
        final(buf).wf(),
        ok == op_applicable(old(buf).bytes(), rec@.op),
        ok ==> final(buf).bytes() == apply_op(old(buf).bytes(), rec@.op),
        !ok ==> *final(buf) == *old(buf),
        final(buf).spec_eol() == old(buf).spec_eol(),
        final(buf).spec_has_invalid() == old(buf).spec_has_invalid(),
{
    let n = buf.len_bytes();
    match &rec.op {
        EditOp::Insert { idx, bytes } => {
            if *idx > n as u64 {
                return false;
            }
            let iu = *idx as usize;
            if !buf.is_boundary(iu) {
                return false;
            }
            match crate::strutil::try_decode(bytes.as_slice()) {
                Some(s) => {
                    buf.insert(iu, s.as_str());
                    proof {
                        vstd::utf8::decode_utf8_encode_utf8(bytes@);
                    }
                    true
                },
                None => false,
            }
        },
        EditOp::Delete { range } => {
            if range.start > range.end || range.end > n as u64 {
                return false;
            }
            let su = range.start as usize;
            let eu = range.end as usize;
            if !buf.is_boundary(su) || !buf.is_boundary(eu) {
                return false;
            }
            buf.delete(su..eu);
            true
        },
    }
}

/// Replay a record sequence into the buffer, skipping records that no longer
/// apply.
pub fn replay_records(buf: &mut crate::buffer::RopeBuffer, recs: &Vec<EditRecord>)
    requires
        old(buf).wf(),
    ensures
        final(buf).wf(),
        final(buf).bytes() == apply_all(old(buf).bytes(), rec_views(recs@)),
        final(buf).spec_eol() == old(buf).spec_eol(),
        final(buf).spec_has_invalid() == old(buf).spec_has_invalid(),
{
    let m = recs.len();
    let mut i: usize = 0;
    proof {
        assert(rec_views(recs@).skip(0) =~= rec_views(recs@));
    }
    while i < m
        invariant
            i <= m,
            m == recs@.len(),
            buf.wf(),
            buf.spec_eol() == old(buf).spec_eol(),
            buf.spec_has_invalid() == old(buf).spec_has_invalid(),
            apply_all(old(buf).bytes(), rec_views(recs@)) == apply_all(
                buf.bytes(),
                rec_views(recs@).skip(i as int),
            ),
        decreases m - i,
    {
        proof {
            assert(rec_views(recs@).skip(i as int)[0] == recs@[i as int]@);
            assert(rec_views(recs@).skip(i as int).skip(1) =~= rec_views(recs@).skip(i as int + 1));
        }
        apply_record(buf, &recs[i]);
        i = i + 1;
    }
    proof {
        assert(rec_views(recs@).skip(m as int) =~= Seq::<EditRecordV>::empty());
    }
}

} // verus!
