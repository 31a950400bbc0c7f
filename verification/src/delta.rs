//! Delta instructions: how a stream of bytes is read into copy and insert
//! instructions, and what applying them to a base yields.

use crate::bytes::{append, copy_range};
use crate::error::GitError;
use vstd::prelude::*;
use vstd::slice::slice_subrange;

verus! {

/// One step of rebuilding an object from a base.
#[derive(Debug, Clone, PartialEq, Eq)]
pub enum DeltaInstruction {
    /// Take `length` bytes of the base, starting at `offset`.
    Copy { offset: usize, length: usize },
    /// Take these bytes.
    Insert(Vec<u8>),
}

/// What an instruction means.
pub enum DeltaOp {
    Copy { offset: nat, length: nat },
    Insert(Seq<u8>),
}

impl View for DeltaInstruction {
    type V = DeltaOp;

    open spec fn view(&self) -> DeltaOp {
        match self {
            DeltaInstruction::Copy { offset, length } => DeltaOp::Copy {
                offset: *offset as nat,
                length: *length as nat,
            },
            DeltaInstruction::Insert(data) => DeltaOp::Insert(data@),
        }
    }
}

/// The meaning of each instruction of a list.
pub open spec fn ops_of(v: Seq<DeltaInstruction>) -> Seq<DeltaOp> {
    Seq::new(v.len(), |i: int| v[i]@)
}

/// The value of bit `k` of a byte, as a weight.
pub open spec fn weight(k: int) -> int {
    if k == 0 {
        1
    } else if k == 1 {
        2
    } else if k == 2 {
        4
    } else if k == 3 {
        8
    } else if k == 4 {
        16
    } else if k == 5 {
        32
    } else if k == 6 {
        64
    } else {
        128
    }
}

/// Whether bit `k` of `f` is set.
#[verifier::opaque]
pub open spec fn has_bit(f: u8, k: int) -> bool {
    (f as int / weight(k)) % 2 == 1
}

/// One where bit `k` of `f` is set, zero where it is clear.
pub open spec fn bit(f: u8, k: int) -> int {
    if has_bit(f, k) {
        1
    } else {
        0
    }
}

/// How many of the bits below `k` are set in `f`.
pub open spec fn below(f: u8, k: int) -> int {
    (if k > 0 { bit(f, 0) } else { 0 })
    + (if k > 1 { bit(f, 1) } else { 0 })
    + (if k > 2 { bit(f, 2) } else { 0 })
    + (if k > 3 { bit(f, 3) } else { 0 })
    + (if k > 4 { bit(f, 4) } else { 0 })
    + (if k > 5 { bit(f, 5) } else { 0 })
    + (if k > 6 { bit(f, 6) } else { 0 })
}

/// The argument byte that bit `k` of the flags `f` selects among `d`, the
/// bytes that follow the flags; zero where the bit is clear.
pub open spec fn arg(f: u8, d: Seq<u8>, k: int) -> int {
    if has_bit(f, k) {
        d[below(f, k)] as int
    } else {
        0
    }
}

/// The offset of a copy: up to four bytes, least significant first.
pub open spec fn copy_offset(f: u8, d: Seq<u8>) -> int {
    arg(f, d, 0) + 0x100 * arg(f, d, 1) + 0x1_0000 * arg(f, d, 2) + 0x100_0000 * arg(f, d, 3)
}

/// The length of a copy: up to three bytes, least significant first; zero
/// stands for 0x10000.
pub open spec fn copy_length(f: u8, d: Seq<u8>) -> int {
    let raw = arg(f, d, 4) + 0x100 * arg(f, d, 5) + 0x1_0000 * arg(f, d, 6);
    if raw == 0 {
        0x1_0000
    } else {
        raw
    }
}

/// The instruction at the start of `s`, and how many bytes it takes.
pub open spec fn spec_read(s: Seq<u8>) -> Result<(DeltaOp, int), GitError> {
    if s.len() == 0 {
        Err(GitError::Truncated)
    } else if s[0] < 128 {
        let n = s[0] as int;
        if n == 0 {
            Err(GitError::BadDelta)
        } else if s.len() < 1 + n {
            Err(GitError::Truncated)
        } else {
            Ok((DeltaOp::Insert(s.subrange(1, 1 + n)), 1 + n))
        }
    } else {
        let f = s[0];
        let n = below(f, 7);
        if s.len() < 1 + n {
            Err(GitError::Truncated)
        } else {
            let d = s.subrange(1, 1 + n);
            Ok(
                (
                    DeltaOp::Copy {
                        offset: copy_offset(f, d) as nat,
                        length: copy_length(f, d) as nat,
                    },
                    1 + n,
                ),
            )
        }
    }
}

/// All the instructions of `s`, read one after the other to its end.
pub open spec fn spec_read_many(s: Seq<u8>) -> Result<Seq<DeltaOp>, GitError>
    decreases s.len(),
{
    if s.len() == 0 {
        Ok(Seq::empty())
    } else {
        match spec_read(s) {
            Err(e) => Err(e),
            Ok((op, n)) => if 0 < n <= s.len() {
                match spec_read_many(s.skip(n)) {
                    Err(e) => Err(e),
                    Ok(rest) => Ok(seq![op] + rest),
                }
            } else {
                Err(GitError::Truncated)
            },
        }
    }
}

/// How many bytes an instruction yields.
pub open spec fn op_len(op: DeltaOp) -> nat {
    match op {
        DeltaOp::Copy { offset, length } => length,
        DeltaOp::Insert(data) => data.len(),
    }
}

/// Whether an instruction stays inside a base of `base_len` bytes.
pub open spec fn op_in_range(op: DeltaOp, base_len: nat) -> bool {
    match op {
        DeltaOp::Copy { offset, length } => offset + length <= base_len,
        DeltaOp::Insert(data) => true,
    }
}

/// Whether every instruction stays inside the base.
pub open spec fn all_in_range(ops: Seq<DeltaOp>, base_len: nat) -> bool {
    forall|i: int| 0 <= i < ops.len() ==> op_in_range(#[trigger] ops[i], base_len)
}

/// What one instruction yields from `base`.
pub open spec fn op_output(op: DeltaOp, base: Seq<u8>) -> Seq<u8> {
    match op {
        DeltaOp::Copy { offset, length } => base.subrange(offset as int, (offset + length) as int),
        DeltaOp::Insert(data) => data,
    }
}

/// What the instructions yield from `base`, one after the other.
pub open spec fn spec_apply(ops: Seq<DeltaOp>, base: Seq<u8>) -> Seq<u8>
    decreases ops.len(),
{
    if ops.len() == 0 {
        Seq::empty()
    } else {
        spec_apply(ops.drop_last(), base) + op_output(ops.last(), base)
    }
}

/// The sum of what the instructions yield.
pub open spec fn total_len(ops: Seq<DeltaOp>) -> nat
    decreases ops.len(),
{
    if ops.len() == 0 {
        0
    } else {
        total_len(ops.drop_last()) + op_len(ops.last())
    }
}

/// The data of the instructions, where each is an insert.
pub open spec fn inserted(ops: Seq<DeltaOp>) -> Seq<Seq<u8>> {
    Seq::new(ops.len(), |i: int| op_output(ops[i], Seq::empty()))
}

/// Whether the bit of weight `w` is set in `f`.
fn flag(f: u8, w: u8, Ghost(k): Ghost<int>) -> (r: bool)
    requires
        0 <= k < 7,
        w == weight(k),
    ensures
        r == has_bit(f, k),
{
    reveal(has_bit);
    (f / w) % 2 == 1
}

/// One for a bit that is set, zero for one that is clear.
fn count(present: bool) -> (r: usize)
    ensures
        r == if present { 1int } else { 0int },
{
    if present {
        1
    } else {
        0
    }
}

/// The argument byte at `p` and the position after it, where the byte is
/// present; zero and `p` where it is not.
fn arg_at(s: &[u8], present: bool, p: usize) -> (r: (u32, usize))
    requires
        present ==> p < s@.len(),
    ensures
        r.0 == if present { s@[p as int] as int } else { 0 },
        r.1 == if present { p + 1 } else { p as int },
{
    if present {
        (s[p] as u32, p + 1)
    } else {
        (0, p)
    }
}

/// Decodes offset and length of a copy from its flags and argument bytes.
#[verifier::rlimit(50)]
fn decode_copy(f: u8, d: &[u8]) -> (r: (u32, u32))
    requires
        d@.len() == below(f, 7),
    ensures
        r.0 == copy_offset(f, d@),
        r.1 == copy_length(f, d@),
{
    let b0 = flag(f, 1, Ghost(0));
    let b1 = flag(f, 2, Ghost(1));
    let b2 = flag(f, 4, Ghost(2));
    let b3 = flag(f, 8, Ghost(3));
    let b4 = flag(f, 16, Ghost(4));
    let b5 = flag(f, 32, Ghost(5));
    let b6 = flag(f, 64, Ghost(6));
    let (o0, at1) = arg_at(d, b0, 0);
    let (o1, at2) = arg_at(d, b1, at1);
    let (o2, at3) = arg_at(d, b2, at2);
    let (o3, at4) = arg_at(d, b3, at3);
    let (l0, at5) = arg_at(d, b4, at4);
    let (l1, at6) = arg_at(d, b5, at5);
    let (l2, at7) = arg_at(d, b6, at6);
    let offset: u32 = o0 + 0x100 * o1 + 0x1_0000 * o2 + 0x100_0000 * o3;
    let raw: u32 = l0 + 0x100 * l1 + 0x1_0000 * l2;
    let length: u32 = if raw == 0 {
        0x1_0000
    } else {
        raw
    };
    (offset, length)
}

/// How many argument bytes the flags of a copy call for.
#[verifier::rlimit(50)]
fn count_args(f: u8) -> (need: usize)
    ensures
        need == below(f, 7),
        need <= 7,
{
    let b0 = flag(f, 1, Ghost(0));
    let b1 = flag(f, 2, Ghost(1));
    let b2 = flag(f, 4, Ghost(2));
    let b3 = flag(f, 8, Ghost(3));
    let b4 = flag(f, 16, Ghost(4));
    let b5 = flag(f, 32, Ghost(5));
    let b6 = flag(f, 64, Ghost(6));
    count(b0) + count(b1) + count(b2) + count(b3) + count(b4) + count(b5) + count(b6)
}

/// Reads the copy instruction whose flags stand at `pos`.
#[verifier::rlimit(50)]
fn read_copy(s: &[u8], pos: usize) -> (r: Result<(DeltaInstruction, usize), GitError>)
    requires
        pos < s@.len(),
        s@[pos as int] >= 128,
    ensures
        match spec_read(s@.skip(pos as int)) {
            Ok((op, n)) => r matches Ok((ins, next)) && ins@ == op && next == pos + n && pos < next
                <= s@.len(),
            Err(e) => r == Err::<(DeltaInstruction, usize), GitError>(e),
        },
{
    let ghost t = s@.skip(pos as int);
    let f = s[pos];
    assert(t[0] == f);
    let avail: usize = s.len() - pos - 1;
    let need = count_args(f);
    if avail < need {
        return Err(GitError::Truncated);
    }
    let d = slice_subrange(s, pos + 1, pos + 1 + need);
    assert(d@ =~= t.subrange(1, 1 + need));
    let (offset, length) = decode_copy(f, d);
    Ok(
        (
            DeltaInstruction::Copy { offset: offset as usize, length: length as usize },
            pos + 1 + need,
        ),
    )
}

impl DeltaInstruction {
    /// Reads the instruction that starts at `pos`; gives it with the position
    /// after it.
    pub fn read(s: &[u8], pos: usize) -> (r: Result<(DeltaInstruction, usize), GitError>)
        requires
            pos <= s@.len(),
        ensures
            match spec_read(s@.skip(pos as int)) {
                Ok((op, n)) => r matches Ok((ins, next)) && ins@ == op && next == pos + n && pos
                    < next <= s@.len(),
                Err(e) => r == Err::<(DeltaInstruction, usize), GitError>(e),
            },
    {
        let ghost t = s@.skip(pos as int);
        if pos >= s.len() {
            return Err(GitError::Truncated);
        }
        let f = s[pos];
        assert(t[0] == f);
        let avail: usize = s.len() - pos - 1;
        if f < 128 {
            if f == 0 {
                return Err(GitError::BadDelta);
            }
            let n: usize = f as usize;
            if avail < n {
                return Err(GitError::Truncated);
            }
            let data = copy_range(s, pos + 1, pos + 1 + n);
            assert(data@ =~= t.subrange(1, 1 + n));
            Ok((DeltaInstruction::Insert(data), pos + 1 + n))
        } else {
            read_copy(s, pos)
        }
    }

    /// Reads instructions from `s` until it is used up.
    pub fn read_many(s: &[u8]) -> (r: Result<Vec<DeltaInstruction>, GitError>)
        ensures
            match spec_read_many(s@) {
                Ok(ops) => r matches Ok(v) && ops_of(v@) == ops,
                Err(e) => r == Err::<Vec<DeltaInstruction>, GitError>(e),
            },
    {
        let mut out: Vec<DeltaInstruction> = Vec::new();
        let mut pos: usize = 0;
        assert(s@.skip(0) =~= s@);
        while pos < s.len()
            invariant
                pos <= s@.len(),
                spec_read_many(s@) == match spec_read_many(s@.skip(pos as int)) {
                    Ok(rest) => Ok::<Seq<DeltaOp>, GitError>(ops_of(out@) + rest),
                    Err(e) => Err(e),
                },
            decreases s@.len() - pos,
        {
            let ghost before = ops_of(out@);
            let ghost t = s@.skip(pos as int);
            match DeltaInstruction::read(s, pos) {
                Err(e) => {
                    return Err(e);
                },
                Ok((ins, next)) => {
                    proof {
                        let n = next - pos;
                        assert(t.skip(n) =~= s@.skip(next as int));
                        match spec_read_many(s@.skip(next as int)) {
                            Ok(rest) => {
                                assert(before + (seq![ins@] + rest) =~= (before + seq![ins@])
                                    + rest);
                            },
                            Err(e) => {},
                        }
                        assert(ops_of(out@.push(ins)) =~= before + seq![ins@]);
                    }
                    out.push(ins);
                    pos = next;
                },
            }
        }
        proof {
            assert(ops_of(out@) + Seq::<DeltaOp>::empty() =~= ops_of(out@));
        }
        Ok(out)
    }

    /// Whether every copy stays inside a base of `base_len` bytes.
    pub fn fits(instructions: &Vec<DeltaInstruction>, base_len: usize) -> (r: bool)
        ensures
            r == all_in_range(ops_of(instructions@), base_len as nat),
    {
        let mut i: usize = 0;
        while i < instructions.len()
            invariant
                i <= instructions@.len(),
                forall|j: int|
                    0 <= j < i ==> op_in_range(
                        #[trigger] ops_of(instructions@)[j],
                        base_len as nat,
                    ),
            decreases instructions@.len() - i,
        {
            match &instructions[i] {
                DeltaInstruction::Copy { offset, length } => {
                    if *offset > base_len || *length > base_len - *offset {
                        assert(!op_in_range(ops_of(instructions@)[i as int], base_len as nat));
                        return false;
                    }
                },
                DeltaInstruction::Insert(_) => {},
            }
            assert(op_in_range(ops_of(instructions@)[i as int], base_len as nat));
            i += 1;
        }
        true
    }

    /// Applies the instructions to `source`, in order.
    pub fn apply(instructions: &Vec<DeltaInstruction>, source: &[u8]) -> (out: Vec<u8>)
        requires
            all_in_range(ops_of(instructions@), source@.len()),
        ensures
            out@ == spec_apply(ops_of(instructions@), source@),
            out@.len() == total_len(ops_of(instructions@)),
    {
        let ghost ops = ops_of(instructions@);
        let mut out: Vec<u8> = Vec::new();
        let mut i: usize = 0;
        let base_len: usize = source.len();
        assert(ops.take(0) =~= Seq::<DeltaOp>::empty());
        while i < instructions.len()
            invariant
                i <= instructions@.len(),
                base_len == source@.len(),
                ops == ops_of(instructions@),
                all_in_range(ops, source@.len()),
                out@ == spec_apply(ops.take(i as int), source@),
                out@.len() == total_len(ops.take(i as int)),
            decreases instructions@.len() - i,
        {
            proof {
                assert(ops.take(i + 1).drop_last() =~= ops.take(i as int));
                assert(ops.take(i + 1).last() == ops[i as int]);
                assert(op_in_range(ops[i as int], source@.len()));
                assert(ops[i as int] == instructions@[i as int]@);
            }
            match &instructions[i] {
                DeltaInstruction::Copy { offset, length } => {
                    assert(ops[i as int] == DeltaOp::Copy {
                        offset: *offset as nat,
                        length: *length as nat,
                    });
                    append(&mut out, slice_subrange(source, *offset, *offset + *length));
                },
                DeltaInstruction::Insert(data) => {
                    append(&mut out, data.as_slice());
                },
            }
            i += 1;
        }
        assert(ops.take(i as int) =~= ops);
        out
    }

    /// Applies the instructions to `source` where every copy stays inside it.
    pub fn try_apply(instructions: &Vec<DeltaInstruction>, source: &[u8]) -> (r: Result<
        Vec<u8>,
        GitError,
    >)
        ensures
            all_in_range(ops_of(instructions@), source@.len()) ==> (r matches Ok(out) && out@
                == spec_apply(ops_of(instructions@), source@)),
            !all_in_range(ops_of(instructions@), source@.len()) ==> r == Err::<
                Vec<u8>,
                GitError,
            >(GitError::BadDelta),
    {
        if DeltaInstruction::fits(instructions, source.len()) {
            Ok(DeltaInstruction::apply(instructions, source))
        } else {
            Err(GitError::BadDelta)
        }
    }
}

/// No instruction yields no byte, whatever the base.
pub proof fn lemma_apply_nothing(base: Seq<u8>)
    ensures
        spec_apply(Seq::empty(), base) == Seq::<u8>::empty(),
{
}

/// One copy of the whole base yields the base.
pub proof fn lemma_copy_whole(base: Seq<u8>)
    ensures
        spec_apply(seq![DeltaOp::Copy { offset: 0, length: base.len() }], base) == base,
{
    let ops = seq![DeltaOp::Copy { offset: 0, length: base.len() }];
    assert(ops.drop_last() =~= Seq::<DeltaOp>::empty());
    assert(spec_apply(ops.drop_last(), base) =~= Seq::<u8>::empty());
    assert(base.subrange(0, base.len() as int) =~= base);
    assert(spec_apply(ops, base) =~= base);
}

/// Instructions that only insert yield their data, joined in order, whatever
/// the base.
pub proof fn lemma_inserts_concatenate(ops: Seq<DeltaOp>, base: Seq<u8>)
    requires
        forall|i: int| 0 <= i < ops.len() ==> #[trigger] ops[i] is Insert,
    ensures
        spec_apply(ops, base) == inserted(ops).flatten(),
    decreases ops.len(),
{
    if ops.len() == 0 {
        assert(inserted(ops) =~= Seq::<Seq<u8>>::empty());
    } else {
        lemma_inserts_concatenate(ops.drop_last(), base);
        assert(inserted(ops) =~= inserted(ops.drop_last()).push(op_output(ops.last(), base)));
        inserted(ops.drop_last()).lemma_flatten_push(op_output(ops.last(), base));
    }
}

/// Where every copy stays inside the base, the result is as long as the copy
/// lengths and the inserted data together.
pub proof fn lemma_apply_len(ops: Seq<DeltaOp>, base: Seq<u8>)
    requires
        all_in_range(ops, base.len()),
    ensures
        spec_apply(ops, base).len() == total_len(ops),
    decreases ops.len(),
{
    if ops.len() > 0 {
        assert(all_in_range(ops.drop_last(), base.len())) by {
            assert forall|i: int| 0 <= i < ops.drop_last().len() implies op_in_range(
                #[trigger] ops.drop_last()[i],
                base.len(),
            ) by {
                assert(ops.drop_last()[i] == ops[i]);
            }
        }
        lemma_apply_len(ops.drop_last(), base);
        assert(op_in_range(ops.last(), base.len()));
    }
}

} // verus!
