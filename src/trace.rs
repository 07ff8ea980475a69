use vstd::prelude::*;
use vstd::arithmetic::div_mod::lemma_breakdown;

verus! {

/// Bytes of a record header: address, declared count, payload length.
pub const HEADER_LEN: usize = 12;

/// Addresses at or above this value have bit 63 set: kernel context.
pub const KERNEL_BIT: u64 = 0x8000_0000_0000_0000;

/// Why a trace record cannot be read.
#[derive(Clone, Copy, Debug, PartialEq, Eq, Structural)]
pub enum DecodeError {
    /// The input ends inside a record.
    Truncated,
    /// A fixed-width record whose payload length is not four bytes per
    /// declared instruction.
    LengthMismatch,
}

/// Power of 256.
pub open spec fn p256(n: nat) -> nat
    decreases n,
{
    if n == 0 {
        1
    } else {
        256 * p256((n - 1) as nat)
    }
}

/// Little-endian value of a byte sequence.
pub open spec fn le_value(s: Seq<u8>) -> nat
    decreases s.len(),
{
    if s.len() == 0 {
        0
    } else {
        s[0] as nat + 256 * le_value(s.drop_first())
    }
}

/// The `n` low bytes of `v`, least significant first.
pub open spec fn le_bytes(v: nat, n: nat) -> Seq<u8>
    decreases n,
{
    if n == 0 {
        Seq::empty()
    } else {
        seq![(v % 256) as u8] + le_bytes(v / 256, (n - 1) as nat)
    }
}

/// Header fields of a record starting at the beginning of `s`.
pub open spec fn spec_address(s: Seq<u8>) -> nat {
    le_value(s.subrange(0, 8))
}

pub open spec fn spec_count(s: Seq<u8>) -> nat {
    le_value(s.subrange(8, 10))
}

pub open spec fn spec_payload_len(s: Seq<u8>) -> nat {
    le_value(s.subrange(10, 12))
}

/// The bytes of a record.
pub open spec fn record_bytes(address: nat, count: nat, payload: Seq<u8>) -> Seq<u8> {
    le_bytes(address, 8) + le_bytes(count, 2) + le_bytes(payload.len(), 2) + payload
}

proof fn lemma_p256_mono(a: nat, b: nat)
    requires
        a <= b,
    ensures
        p256(a) <= p256(b),
    decreases b,
{
    if a < b {
        lemma_p256_mono(a, (b - 1) as nat);
    }
}

proof fn lemma_p256_values()
    ensures
        p256(2) == 0x1_0000,
        p256(4) == 0x1_0000_0000,
        p256(8) == 0x1_0000_0000_0000_0000,
{
    reveal_with_fuel(p256, 9);
}

proof fn lemma_le_bound(s: Seq<u8>)
    ensures
        le_value(s) < p256(s.len()),
    decreases s.len(),
{
    if s.len() > 0 {
        lemma_le_bound(s.drop_first());
        let r = le_value(s.drop_first());
        let p = p256((s.len() - 1) as nat);
        assert(s[0] as nat + 256 * r < 256 * p) by (nonlinear_arith)
            requires
                r < p,
                s[0] < 256,
        ;
    }
}

proof fn lemma_le_bytes_len(v: nat, n: nat)
    ensures
        le_bytes(v, n).len() == n,
    decreases n,
{
    if n > 0 {
        lemma_le_bytes_len(v / 256, (n - 1) as nat);
    }
}

proof fn lemma_le_round_trip(v: nat, n: nat)
    ensures
        le_value(le_bytes(v, n)) == v % p256(n),
    decreases n,
{
    if n == 0 {
    } else {
        let m = (n - 1) as nat;
        lemma_le_round_trip(v / 256, m);
        lemma_p256_mono(0, m);
        assert(le_bytes(v, n).drop_first() =~= le_bytes(v / 256, m));
        lemma_breakdown(v as int, 256, p256(m) as int);
    }
}

/// Little-endian value of `n` bytes of `data` from `start`.
fn read_le(data: &[u8], start: usize, n: usize) -> (r: u64)
    requires
        n <= 8,
        start + n <= data@.len(),
    ensures
        r == le_value(data@.subrange(start as int, start + n)),
{
    let len = data.len();
    let end = start + n;
    let mut acc: u64 = 0;
    let mut k: usize = end;
    proof {
        assert(data@.subrange(end as int, end as int) =~= Seq::<u8>::empty());
        lemma_p256_values();
    }
    while k > start
        invariant
            start <= k <= end,
            end == start + n,
            n <= 8,
            end <= data@.len(),
            acc == le_value(data@.subrange(k as int, end as int)),
            p256(8) == 0x1_0000_0000_0000_0000,
        decreases k - start,
    {
        let ghost tail = data@.subrange(k as int, end as int);
        let ghost whole = data@.subrange(k - 1, end as int);
        proof {
            assert(whole.drop_first() =~= tail);
            lemma_le_bound(tail);
            lemma_p256_mono(tail.len(), 7);
            assert(p256(8) == 256 * p256(7));
            let p = p256(7);
            assert(256 * acc + 255 < 256 * p) by (nonlinear_arith)
                requires
                    acc < p,
            ;
        }
        let b = data[k - 1];
        acc = b as u64 + 256 * acc;
        k = k - 1;
    }
    acc
}

/// Appends the `n` low bytes of `v`, least significant first.
fn push_le(out: &mut Vec<u8>, v: u64, n: usize)
    ensures
        final(out)@ == old(out)@ + le_bytes(v as nat, n as nat),
{
    let ghost start = out@;
    let mut x: u64 = v;
    let mut k: usize = 0;
    while k < n
        invariant
            k <= n,
            out@ + le_bytes(x as nat, (n - k) as nat) == start + le_bytes(v as nat, n as nat),
        decreases n - k,
    {
        let ghost before = out@;
        proof {
            assert(le_bytes(x as nat, (n - k) as nat) == seq![(x % 256) as u8] + le_bytes((x / 256) as nat, (n - k - 1) as nat));
            assert(before + le_bytes(x as nat, (n - k) as nat) =~= before.push((x % 256) as u8) + le_bytes((x / 256) as nat, (n - k - 1) as nat));
        }
        out.push((x % 256) as u8);
        x = x / 256;
        k = k + 1;
    }
    assert(le_bytes(x as nat, 0) =~= Seq::<u8>::empty());
    assert(out@ =~= start + le_bytes(v as nat, n as nat));
}

/// Header of one trace record.
#[derive(Clone, Copy, Debug, PartialEq, Eq, Structural)]
pub struct RecordHeader {
    /// Physical address; bit 63 set marks kernel context.
    pub address: u64,
    /// Declared number of instructions.
    pub declared_count: u16,
    /// Number of payload bytes that follow the header.
    pub payload_len: u16,
}

/// One variable-width (x86-64) record.
#[derive(Clone, Debug)]
pub struct TraceEntryX86 {
    /// Address as stored in the trace, bit 63 included.
    pub p_pc: u64,
    /// Declared instruction count; advisory for this architecture.
    pub n_insts: usize,
    pub is_user: bool,
    /// Payload bytes, handed to the decoder as one unit.
    pub insts_bytes: Vec<u8>,
}

/// One fixed-width (AArch64) record.
#[derive(Clone, Debug)]
pub struct TraceEntryARM {
    /// Address as stored in the trace, bit 63 included.
    pub p_pc: u64,
    pub n_insts: usize,
    pub is_user: bool,
    /// The instruction words, in order.
    pub insts: Vec<u32>,
}

pub open spec fn is_user_address(a: u64) -> bool {
    a < KERNEL_BIT
}

/// The address without its privilege bit.
pub open spec fn spec_display_address(a: u64) -> u64 {
    if a >= KERNEL_BIT {
        (a - KERNEL_BIT) as u64
    } else {
        a
    }
}

/// The address without its privilege bit, for display.
pub fn display_address(a: u64) -> (r: u64)
    ensures
        r == spec_display_address(a),
        r < KERNEL_BIT,
{
    if a >= KERNEL_BIT {
        a - KERNEL_BIT
    } else {
        a
    }
}

impl TraceEntryX86 {
    pub fn is_kernel(&self) -> (r: bool)
        ensures
            r == !self.is_user,
    {
        !self.is_user
    }
}

impl TraceEntryARM {
    pub fn is_kernel(&self) -> (r: bool)
        ensures
            r == !self.is_user,
    {
        !self.is_user
    }
}

/// Reads the header at the start of `data`: `None` when `data` is empty (end
/// of the stream).
pub fn parse_header(data: &[u8]) -> (r: Result<Option<RecordHeader>, DecodeError>)
    ensures
        data@.len() == 0 ==> r == Ok::<Option<RecordHeader>, DecodeError>(None),
        0 < data@.len() < HEADER_LEN ==> r == Err::<Option<RecordHeader>, DecodeError>(DecodeError::Truncated),
        data@.len() >= HEADER_LEN ==> (r matches Ok(Some(h)) && h.address == spec_address(data@)
            && h.declared_count == spec_count(data@) && h.payload_len == spec_payload_len(data@)),
{
    if data.len() == 0 {
        return Ok(None);
    }
    if data.len() < HEADER_LEN {
        return Err(DecodeError::Truncated);
    }
    proof {
        lemma_p256_values();
        lemma_le_bound(data@.subrange(8, 10));
        lemma_le_bound(data@.subrange(10, 12));
    }
    let address = read_le(data, 0, 8);
    let declared_count = read_le(data, 8, 2) as u16;
    let payload_len = read_le(data, 10, 2) as u16;
    Ok(Some(RecordHeader { address, declared_count, payload_len }))
}

/// Reads the variable-width record at the start of `data`, and returns it
/// with the number of bytes it takes; `None` when `data` is empty.
pub fn get_next_trace_x86(data: &[u8]) -> (r: Result<Option<(TraceEntryX86, usize)>, DecodeError>)
    ensures
        data@.len() == 0 ==> r is Ok && r->Ok_0 is None,
        0 < data@.len() < HEADER_LEN ==> r == Err::<Option<(TraceEntryX86, usize)>, DecodeError>(DecodeError::Truncated),
        data@.len() >= HEADER_LEN && data@.len() < HEADER_LEN + spec_payload_len(data@)
            ==> r == Err::<Option<(TraceEntryX86, usize)>, DecodeError>(DecodeError::Truncated),
        data@.len() >= HEADER_LEN + spec_payload_len(data@) && data@.len() >= HEADER_LEN ==> (r matches Ok(Some((e, used)))
            && used == HEADER_LEN + spec_payload_len(data@)
            && e.p_pc == spec_address(data@)
            && e.n_insts == spec_count(data@)
            && e.is_user == is_user_address(e.p_pc)
            && e.insts_bytes@ == data@.subrange(HEADER_LEN as int, used as int)),
{
    let h = match parse_header(data) {
        Ok(Some(h)) => h,
        Ok(None) => return Ok(None),
        Err(e) => return Err(e),
    };
    let n = h.payload_len as usize;
    if data.len() - HEADER_LEN < n {
        return Err(DecodeError::Truncated);
    }
    let end = HEADER_LEN + n;
    let mut bytes: Vec<u8> = Vec::with_capacity(n);
    let mut k: usize = HEADER_LEN;
    while k < end
        invariant
            HEADER_LEN <= k <= end,
            end <= data@.len(),
            bytes@ == data@.subrange(HEADER_LEN as int, k as int),
        decreases end - k,
    {
        bytes.push(data[k]);
        k = k + 1;
        assert(bytes@ =~= data@.subrange(HEADER_LEN as int, k as int));
    }
    let e = TraceEntryX86 {
        p_pc: h.address,
        n_insts: h.declared_count as usize,
        is_user: h.address < KERNEL_BIT,
        insts_bytes: bytes,
    };
    Ok(Some((e, end)))
}

/// Reads the fixed-width record at the start of `data`, and returns it with
/// the number of bytes it takes; `None` when `data` is empty. The payload
/// length must be four bytes per declared instruction.
pub fn get_next_trace_arm(data: &[u8]) -> (r: Result<Option<(TraceEntryARM, usize)>, DecodeError>)
    ensures
        data@.len() == 0 ==> r is Ok && r->Ok_0 is None,
        0 < data@.len() < HEADER_LEN ==> r == Err::<Option<(TraceEntryARM, usize)>, DecodeError>(DecodeError::Truncated),
        data@.len() >= HEADER_LEN && spec_payload_len(data@) != 4 * spec_count(data@)
            ==> r == Err::<Option<(TraceEntryARM, usize)>, DecodeError>(DecodeError::LengthMismatch),
        data@.len() >= HEADER_LEN && spec_payload_len(data@) == 4 * spec_count(data@)
            && data@.len() < HEADER_LEN + spec_payload_len(data@)
            ==> r == Err::<Option<(TraceEntryARM, usize)>, DecodeError>(DecodeError::Truncated),
        data@.len() >= HEADER_LEN && spec_payload_len(data@) == 4 * spec_count(data@)
            && data@.len() >= HEADER_LEN + spec_payload_len(data@) ==> (r matches Ok(Some((e, used)))
            && used == HEADER_LEN + spec_payload_len(data@)
            && e.p_pc == spec_address(data@)
            && e.n_insts == spec_count(data@)
            && e.is_user == is_user_address(e.p_pc)
            && e.insts@.len() == spec_count(data@)
            && forall|i: int| 0 <= i < e.insts@.len() ==> #[trigger] e.insts@[i] == le_value(
                data@.subrange(HEADER_LEN + 4 * i, HEADER_LEN + 4 * i + 4),
            )),
{
    let h = match parse_header(data) {
        Ok(Some(h)) => h,
        Ok(None) => return Ok(None),
        Err(e) => return Err(e),
    };
    let count = h.declared_count as usize;
    let n = h.payload_len as usize;
    if n != 4 * count {
        return Err(DecodeError::LengthMismatch);
    }
    if data.len() - HEADER_LEN < n {
        return Err(DecodeError::Truncated);
    }
    let dl = data.len();
    let mut insts: Vec<u32> = Vec::with_capacity(count);
    let mut i: usize = 0;
    while i < count
        invariant
            i <= count,
            dl == data@.len(),
            n == 4 * count,
            HEADER_LEN + n <= data@.len(),
            insts@.len() == i,
            forall|j: int| 0 <= j < i ==> #[trigger] insts@[j] == le_value(
                data@.subrange(HEADER_LEN + 4 * j, HEADER_LEN + 4 * j + 4),
            ),
        decreases count - i,
    {
        proof {
            lemma_p256_values();
            lemma_le_bound(data@.subrange(HEADER_LEN + 4 * i, HEADER_LEN + 4 * i + 4));
        }
        let w = read_le(data, HEADER_LEN + 4 * i, 4) as u32;
        insts.push(w);
        i = i + 1;
    }
    let e = TraceEntryARM {
        p_pc: h.address,
        n_insts: count,
        is_user: h.address < KERNEL_BIT,
        insts,
    };
    Ok(Some((e, HEADER_LEN + n)))
}

/// The bytes of a record with the given address, declared count and payload.
pub fn encode_record(address: u64, declared_count: u16, payload: &[u8]) -> (r: Vec<u8>)
    requires
        payload@.len() <= 0xFFFF,
    ensures
        r@ == record_bytes(address as nat, declared_count as nat, payload@),
{
    let mut out: Vec<u8> = Vec::new();
    push_le(&mut out, address, 8);
    push_le(&mut out, declared_count as u64, 2);
    push_le(&mut out, payload.len() as u64, 2);
    let ghost head = out@;
    let mut k: usize = 0;
    while k < payload.len()
        invariant
            k <= payload@.len(),
            out@ == head + payload@.subrange(0, k as int),
        decreases payload@.len() - k,
    {
        out.push(payload[k]);
        k = k + 1;
        assert(out@ =~= head + payload@.subrange(0, k as int));
    }
    assert(payload@.subrange(0, k as int) =~= payload@);
    out
}

/// Decoding the encoding of a record gives back its address, unchanged
/// (privilege bit included), its declared count, and its payload byte for
/// byte; the record occupies exactly the header and the payload.
pub proof fn lemma_record_round_trip(address: u64, declared_count: u16, payload: Seq<u8>)
    requires
        payload.len() <= 0xFFFF,
    ensures
        record_bytes(address as nat, declared_count as nat, payload).len() == HEADER_LEN + payload.len(),
        spec_address(record_bytes(address as nat, declared_count as nat, payload)) == address,
        spec_count(record_bytes(address as nat, declared_count as nat, payload)) == declared_count,
        spec_payload_len(record_bytes(address as nat, declared_count as nat, payload)) == payload.len(),
        record_bytes(address as nat, declared_count as nat, payload).subrange(
            HEADER_LEN as int,
            HEADER_LEN + payload.len(),
        ) == payload,
{
    let a = le_bytes(address as nat, 8);
    let c = le_bytes(declared_count as nat, 2);
    let l = le_bytes(payload.len(), 2);
    let d = record_bytes(address as nat, declared_count as nat, payload);
    lemma_le_bytes_len(address as nat, 8);
    lemma_le_bytes_len(declared_count as nat, 2);
    lemma_le_bytes_len(payload.len(), 2);
    lemma_le_round_trip(address as nat, 8);
    lemma_le_round_trip(declared_count as nat, 2);
    lemma_le_round_trip(payload.len(), 2);
    lemma_p256_values();
    assert(d.subrange(0, 8) =~= a);
    assert(d.subrange(8, 10) =~= c);
    assert(d.subrange(10, 12) =~= l);
    assert(d.subrange(12, 12 + payload.len() as int) =~= payload);
}

} // verus!
