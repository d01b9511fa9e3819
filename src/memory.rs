use vstd::prelude::*;
use crate::value::bytes_equal;
use crate::marshal::{repr, repr_bytes, overwrite, copy_into};

verus! {

/// The call stack: scratch memory above the literal pool, handed out by a
/// bump pointer and reclaimed all at once when a function returns.
#[derive(Debug)]
pub struct CallStack {
    /// The `$stack-pointer` global: the first free address.
    pub stack_pointer: u32,
}

impl CallStack {
    /// A call stack that starts at `base`, the first address past the literals.
    pub fn new(base: u32) -> (r: CallStack)
        ensures
            r.stack_pointer == base,
    {
        CallStack { stack_pointer: base }
    }

    /// Function entry: the pointer to restore at exit.
    pub fn enter(&self) -> (saved: u32)
        ensures
            saved == self.stack_pointer,
    {
        self.stack_pointer
    }

    /// Reserves `size` bytes; returns their offset and size.
    pub fn allocate(&mut self, size: u32) -> (r: (u32, u32))
        requires
            old(self).stack_pointer + size <= u32::MAX,
        ensures
            r == (old(self).stack_pointer, size),
            final(self).stack_pointer == old(self).stack_pointer + size,
    {
        let offset = self.stack_pointer;
        self.stack_pointer = offset + size;
        (offset, size)
    }

    /// Function exit: restores the pointer saved at entry.
    pub fn exit(&mut self, saved: u32)
        ensures
            final(self).stack_pointer == saved,
    {
        self.stack_pointer = saved;
    }

    /// One function invocation that makes the given allocations, in order.
    /// Each allocation starts where the previous one ended, the first at the
    /// pointer on entry; on exit the pointer is back where it was.
    pub fn call_frame(&mut self, sizes: &Vec<u32>) -> (r: Vec<(u32, u32)>)
        requires
            old(self).stack_pointer + sizes@.fold_left(0int, |acc: int, s: u32| acc + s) <= u32::MAX,
        ensures
            final(self).stack_pointer == old(self).stack_pointer,
            r@.len() == sizes@.len(),
            forall|i: int|
                0 <= i < sizes@.len() ==> (#[trigger] r@[i]).0 == old(self).stack_pointer
                    + sizes@.take(i).fold_left(0int, |acc: int, s: u32| acc + s) && r@[i].1
                    == sizes@[i],
    {
        let saved = self.enter();
        let mut r: Vec<(u32, u32)> = Vec::new();
        let mut i: usize = 0;
        let ghost total = sizes@.fold_left(0int, |acc: int, s: u32| acc + s);
        while i < sizes.len()
            invariant
                0 <= i <= sizes.len(),
                saved == old(self).stack_pointer,
                total == sizes@.fold_left(0int, |acc: int, s: u32| acc + s),
                saved + total <= u32::MAX,
                self.stack_pointer == saved + sizes@.take(i as int).fold_left(
                    0int,
                    |acc: int, s: u32| acc + s,
                ),
                r@.len() == i,
                forall|j: int|
                    0 <= j < i ==> (#[trigger] r@[j]).0 == saved + sizes@.take(j).fold_left(
                        0int,
                        |acc: int, s: u32| acc + s,
                    ) && r@[j].1 == sizes@[j],
            decreases sizes.len() - i,
        {
            proof {
                lemma_prefix_sums(sizes@, i as int + 1);
                assert(sizes@.take(i + 1).drop_last() =~= sizes@.take(i as int));
            }
            let a = self.allocate(sizes[i]);
            r.push(a);
            i = i + 1;
        }
        self.exit(saved);
        r
    }
}

proof fn lemma_prefix_sums(s: Seq<u32>, k: int)
    requires
        0 <= k <= s.len(),
    ensures
        s.take(k).fold_left(0int, |acc: int, x: u32| acc + x) <= s.fold_left(
            0int,
            |acc: int, x: u32| acc + x,
        ),
        s.take(k).fold_left(0int, |acc: int, x: u32| acc + x) >= 0,
    decreases s.len() - k,
{
    if k < s.len() {
        lemma_prefix_sums(s, k + 1);
        assert(s.take(k + 1).drop_last() =~= s.take(k));
        lemma_sum_nonneg(s.take(k));
    } else {
        assert(s.take(k) =~= s);
        lemma_sum_nonneg(s);
    }
}

proof fn lemma_sum_nonneg(s: Seq<u32>)
    ensures
        s.fold_left(0int, |acc: int, x: u32| acc + x) >= 0,
    decreases s.len(),
{
    if s.len() > 0 {
        lemma_sum_nonneg(s.drop_last());
    }
}

/// Which kind of constant a literal is: literals of different kinds never
/// share storage, even when their bytes agree.
#[derive(Debug, Clone, Copy, PartialEq, Eq, Structural)]
pub enum LiteralKind {
    Buffer,
    StringAscii,
    StringUtf8,
    Principal,
    /// A value written out in its in-memory form.
    Encoded,
}

/// The literal pool: constant byte regions interned at the low end of linear
/// memory, each stored once per kind and contents.
#[derive(Debug)]
pub struct LiteralPool {
    /// Address of the first literal.
    pub base: u32,
    /// The pool's bytes, starting at `base`.
    pub bytes: Vec<u8>,
    /// Each interned literal: kind, contents, offset.
    pub entries: Vec<(LiteralKind, Vec<u8>, u32)>,
}

impl LiteralPool {
    /// Every entry's contents lie in the pool at its offset, and no two
    /// entries share kind and contents.
    pub open spec fn wf(&self) -> bool {
        &&& self.base + self.bytes@.len() <= u32::MAX
        &&& forall|i: int|
            0 <= i < self.entries@.len() ==> {
                let (k, c, off) = #[trigger] self.entries@[i];
                &&& self.base <= off
                &&& off - self.base + c@.len() <= self.bytes@.len()
                &&& self.bytes@.subrange(off - self.base, off - self.base + c@.len()) == c@
            }
        &&& forall|i: int, j: int|
            0 <= i < j < self.entries@.len() ==> !((#[trigger] self.entries@[i]).0
                == (#[trigger] self.entries@[j]).0 && self.entries@[i].1@ == self.entries@[j].1@)
    }

    /// The first address past the last literal, where the call stack begins.
    pub open spec fn end(&self) -> int {
        self.base + self.bytes@.len()
    }

    pub open spec fn holds(&self, kind: LiteralKind, c: Seq<u8>) -> bool {
        exists|i: int| 0 <= i < self.entries@.len() && (#[trigger] self.entries@[i]).0 == kind && self.entries@[i].1@ == c
    }

    pub fn new(base: u32) -> (r: LiteralPool)
        ensures
            r.wf(),
            r.base == base,
            r.bytes@.len() == 0,
            r.entries@.len() == 0,
    {
        LiteralPool { base, bytes: Vec::new(), entries: Vec::new() }
    }

    /// The first address past the last literal.
    pub fn end_offset(&self) -> (r: u32)
        requires
            self.wf(),
        ensures
            r == self.end(),
    {
        self.base + self.bytes.len() as u32
    }

    /// Interns a literal and returns its offset and length. Contents already
    /// interned with the same kind are found again, and the pool is left as it
    /// was; otherwise the contents are appended at the end of the pool.
    pub fn add_literal(&mut self, kind: LiteralKind, contents: &Vec<u8>) -> (r: (u32, u32))
        requires
            old(self).wf(),
            old(self).end() + contents@.len() <= u32::MAX,
        ensures
            final(self).wf(),
            final(self).base == old(self).base,
            r.1 == contents@.len(),
            final(self).bytes@.subrange(r.0 - final(self).base, r.0 - final(self).base + r.1) == contents@,
            old(self).holds(kind, contents@) ==> final(self).bytes@ == old(self).bytes@
                && final(self).entries@ == old(self).entries@ && exists|i: int|
                0 <= i < old(self).entries@.len() && (#[trigger] old(self).entries@[i]).0 == kind
                    && old(self).entries@[i].1@ == contents@ && old(self).entries@[i].2 == r.0,
            !old(self).holds(kind, contents@) ==> r.0 == old(self).end() && final(self).bytes@
                == old(self).bytes@ + contents@,
            final(self).holds(kind, contents@),
    {
        let mut i: usize = 0;
        while i < self.entries.len()
            invariant
                0 <= i <= self.entries.len(),
                self.wf(),
                *self == *old(self),
                forall|j: int| 0 <= j < i ==> !((#[trigger] self.entries@[j]).0 == kind && self.entries@[j].1@ == contents@),
            decreases self.entries.len() - i,
        {
            if self.entries[i].0 == kind && bytes_equal(&self.entries[i].1, contents) {
                let off = self.entries[i].2;
                assert(old(self).entries@[i as int].2 == off);
                return (off, contents.len() as u32);
            }
            i = i + 1;
        }
        let off = self.base + self.bytes.len() as u32;
        let ghost old_bytes = self.bytes@;
        let mut j: usize = 0;
        while j < contents.len()
            invariant
                0 <= j <= contents.len(),
                self.base == old(self).base,
                self.entries@ == old(self).entries@,
                self.bytes@ == old_bytes + contents@.take(j as int),
                old_bytes == old(self).bytes@,
                off == old(self).end(),
                old(self).wf(),
                old(self).end() + contents@.len() <= u32::MAX,
            decreases contents.len() - j,
        {
            self.bytes.push(contents[j]);
            j = j + 1;
            assert(self.bytes@ =~= old_bytes + contents@.take(j as int));
        }
        assert(contents@.take(j as int) =~= contents@);
        let ghost mid_entries = self.entries@;
        self.entries.push((kind, copy_contents(contents), off));
        proof {
            assert forall|q: int| 0 <= q < mid_entries.len() implies {
                let (k, c, o) = #[trigger] self.entries@[q];
                &&& self.base <= o
                &&& o - self.base + c@.len() <= self.bytes@.len()
                &&& self.bytes@.subrange(o - self.base, o - self.base + c@.len()) == c@
            } by {
                let (k, c, o) = self.entries@[q];
                assert(old(self).entries@[q] == self.entries@[q]);
                assert(self.bytes@.subrange(o - self.base, o - self.base + c@.len()) =~= old_bytes.subrange(
                    o - self.base,
                    o - self.base + c@.len(),
                ));
            }
            let last = mid_entries.len() as int;
            assert(self.entries@[last].2 == off);
            assert(self.bytes@.subrange(off - self.base, off - self.base + contents@.len()) =~= contents@);
            assert(self.holds(kind, contents@)) by {
                assert(self.entries@[last].0 == kind && self.entries@[last].1@ == contents@);
            }
        }
        (off, contents.len() as u32)
    }
}

impl LiteralPool {
    /// Reserves the eight-byte `(offset, length)` cell that lets an in-memory
    /// literal be used as a value, at the end of the pool; returns the cell's
    /// address.
    pub fn add_reference(&mut self, offset: u32, length: u32) -> (r: u32)
        requires
            old(self).wf(),
            old(self).end() + 8 <= u32::MAX,
        ensures
            final(self).wf(),
            final(self).base == old(self).base,
            final(self).entries@ == old(self).entries@,
            r == old(self).end(),
            final(self).bytes@ == old(self).bytes@ + repr(offset as nat, length as nat),
    {
        let at = self.base + self.bytes.len() as u32;
        let cell = repr_bytes(offset, length);
        proof {
            crate::marshal::lemma_repr_len(offset as nat, length as nat);
        }
        let ghost old_bytes = self.bytes@;
        let mut i: usize = 0;
        while i < cell.len()
            invariant
                0 <= i <= cell.len(),
                cell@.len() == 8,
                self.base == old(self).base,
                self.entries@ == old(self).entries@,
                old_bytes == old(self).bytes@,
                self.bytes@ == old_bytes + cell@.take(i as int),
            decreases cell.len() - i,
        {
            self.bytes.push(cell[i]);
            i = i + 1;
            assert(self.bytes@ =~= old_bytes + cell@.take(i as int));
        }
        assert(cell@.take(i as int) =~= cell@);
        proof {
            assert forall|q: int| 0 <= q < self.entries@.len() implies {
                let (k, c, o) = #[trigger] self.entries@[q];
                &&& self.base <= o
                &&& o - self.base + c@.len() <= self.bytes@.len()
                &&& self.bytes@.subrange(o - self.base, o - self.base + c@.len()) == c@
            } by {
                let (k, c, o) = self.entries@[q];
                assert(old(self).entries@[q] == self.entries@[q]);
                assert(self.bytes@.subrange(o - self.base, o - self.base + c@.len()) =~= old_bytes.subrange(
                    o - self.base,
                    o - self.base + c@.len(),
                ));
            }
        }
        at
    }
}

fn copy_contents(b: &Vec<u8>) -> (r: Vec<u8>)
    ensures
        r@ == b@,
{
    crate::value::copy_bytes(b)
}

/// How many of the flags are set.
pub open spec fn count_kept(keep: Seq<bool>) -> nat
    decreases keep.len(),
{
    if keep.len() == 0 {
        0
    } else {
        count_kept(keep.drop_last()) + if keep.last() { 1nat } else { 0nat }
    }
}

/// The elements of `src` (each `size` bytes) whose flag is set, in order.
pub open spec fn kept_elements(src: Seq<u8>, size: nat, keep: Seq<bool>) -> Seq<u8>
    decreases keep.len(),
{
    if keep.len() == 0 {
        Seq::empty()
    } else {
        let k = keep.len() - 1;
        kept_elements(src, size, keep.drop_last()) + if keep.last() {
            src.subrange(k * size, k * size + size)
        } else {
            Seq::empty()
        }
    }
}

/// The output of a filter holds one element's bytes per kept element.
pub proof fn lemma_kept_len(src: Seq<u8>, size: nat, keep: Seq<bool>)
    requires
        keep.len() * size <= src.len(),
    ensures
        kept_elements(src, size, keep).len() == count_kept(keep) * size,
    decreases keep.len(),
{
    if keep.len() > 0 {
        let k = keep.len() - 1;
        assert(k * size + size == keep.len() * size) by (nonlinear_arith)
            requires k == keep.len() - 1;
        assert(keep.drop_last().len() * size <= src.len()) by (nonlinear_arith)
            requires keep.drop_last().len() == k, k * size + size <= src.len();
        lemma_kept_len(src, size, keep.drop_last());
        assert((count_kept(keep.drop_last()) + 1) * size == count_kept(keep.drop_last()) * size + size) by (nonlinear_arith);
    }
}

proof fn lemma_kept_le(keep: Seq<bool>)
    ensures
        count_kept(keep) <= keep.len(),
    decreases keep.len(),
{
    if keep.len() > 0 {
        lemma_kept_le(keep.drop_last());
    }
}

proof fn lemma_overwrite_append(mem: Seq<u8>, at: int, a: Seq<u8>, b: Seq<u8>)
    requires
        0 <= at,
        at + a.len() + b.len() <= mem.len(),
    ensures
        overwrite(overwrite(mem, at, a), at + a.len(), b) == overwrite(mem, at, a + b),
{
    assert(overwrite(overwrite(mem, at, a), at + a.len(), b) =~= overwrite(mem, at, a + b));
}

/// The loop that `filter` compiles to: walks the `keep.len()` elements of
/// `elem_size` bytes at `input_offset`, where `keep` holds the predicate's
/// answer for each, and copies the kept ones, in order, to `output_offset`.
/// Returns the output length in bytes: the number kept times the element size.
pub fn filter_elements(
    mem: &mut Vec<u8>,
    input_offset: u32,
    elem_size: u32,
    keep: &Vec<bool>,
    output_offset: u32,
) -> (r: u32)
    requires
        input_offset + keep@.len() * elem_size <= old(mem)@.len(),
        output_offset + keep@.len() * elem_size <= old(mem)@.len(),
        keep@.len() * elem_size <= u32::MAX,
        output_offset + keep@.len() * elem_size <= input_offset || input_offset + keep@.len()
            * elem_size <= output_offset,
    ensures
        r == count_kept(keep@) * elem_size,
        final(mem)@ == overwrite(
            old(mem)@,
            output_offset as int,
            kept_elements(
                old(mem)@.subrange(input_offset as int, input_offset + keep@.len() * elem_size),
                elem_size as nat,
                keep@,
            ),
        ),
{
    let ghost n = keep@.len();
    let ghost sz = elem_size as nat;
    let ghost src = old(mem)@.subrange(input_offset as int, input_offset + n * sz);
    let mut out_len: u32 = 0;
    let mut i: usize = 0;
    proof {
        assert(keep@.take(0) =~= Seq::<bool>::empty());
        assert(count_kept(keep@.take(0)) == 0);
        assert(0 * sz == 0);
        assert(kept_elements(src, sz, keep@.take(0)) == Seq::<u8>::empty());
        assert(overwrite(old(mem)@, output_offset as int, Seq::empty()) =~= old(mem)@);
    }
    while i < keep.len()
        invariant
            0 <= i <= keep.len(),
            n == keep@.len(),
            sz == elem_size,
            src == old(mem)@.subrange(input_offset as int, input_offset + n * sz),
            input_offset + n * sz <= old(mem)@.len(),
            output_offset + n * sz <= old(mem)@.len(),
            n * sz <= u32::MAX,
            output_offset + n * sz <= input_offset || input_offset + n * sz <= output_offset,
            mem@.len() == old(mem)@.len(),
            out_len == count_kept(keep@.take(i as int)) * sz,
            count_kept(keep@.take(i as int)) <= i,
            mem@ == overwrite(old(mem)@, output_offset as int, kept_elements(src, sz, keep@.take(i as int))),
        decreases keep.len() - i,
    {
        let ghost t = keep@.take(i + 1);
        proof {
            assert(t.drop_last() =~= keep@.take(i as int));
            assert(i * sz + sz <= n * sz) by (nonlinear_arith)
                requires i < n;
            assert(src.len() == n * sz);
            assert(keep@.take(i as int).len() * sz <= src.len()) by (nonlinear_arith)
                requires keep@.take(i as int).len() == i, i * sz + sz <= src.len();
            lemma_kept_len(src, sz, keep@.take(i as int));
            assert(count_kept(keep@.take(i as int)) * sz <= i * sz) by (nonlinear_arith)
                requires count_kept(keep@.take(i as int)) <= i;
            assert(i * sz <= n * sz) by (nonlinear_arith)
                requires i < n;
            assert(count_kept(t) == count_kept(keep@.take(i as int)) + if keep@[i as int] { 1nat } else { 0nat });
            assert((count_kept(keep@.take(i as int)) + 1) * sz == count_kept(keep@.take(i as int)) * sz + sz) by (nonlinear_arith);
            assert(kept_elements(src, sz, t) == kept_elements(src, sz, keep@.take(i as int)) + if keep@[i as int] {
                src.subrange(i * sz, i * sz + sz)
            } else {
                Seq::empty()
            });
        }
        if keep[i] {
            let mlen = mem.len();
            proof {
                assert(input_offset + i * sz + sz <= mlen);
                assert(output_offset + out_len + sz <= mlen);
            }
            proof {
                let kb = kept_elements(src, sz, keep@.take(i as int));
                assert(kb.len() <= n * sz);
                assert forall|q: int| input_offset <= q < input_offset + n * sz implies #[trigger] mem@[q] == old(mem)@[q] by {
                    assert(q < output_offset || q >= output_offset + kb.len());
                }
            }
            let start: usize = input_offset as usize + i * elem_size as usize;
            let stop: usize = start + elem_size as usize;
            let mut chunk: Vec<u8> = Vec::new();
            let mut k: usize = start;
            while k < stop
                invariant
                    start <= k <= stop,
                    stop <= mem@.len(),
                    mem@.len() == old(mem)@.len(),
                    forall|q: int| input_offset <= q < input_offset + n * sz ==> #[trigger] mem@[q] == old(mem)@[q],
                    input_offset <= start,
                    stop <= input_offset + n * sz,
                    chunk@ == old(mem)@.subrange(start as int, k as int),
                decreases stop - k,
            {
                assert(mem@[k as int] == old(mem)@[k as int]);
                chunk.push(mem[k]);
                k = k + 1;
                assert(chunk@ =~= old(mem)@.subrange(start as int, k as int));
            }
            assert(src.subrange(i * sz, i * sz + sz) =~= old(mem)@.subrange(start as int, stop as int));
            assert(chunk@ == src.subrange(i * sz, i * sz + sz));
            let ghost before = mem@;
            let ghost kept_before = kept_elements(src, sz, keep@.take(i as int));
            copy_into(mem, output_offset as usize + out_len as usize, &chunk);
            proof {
                lemma_overwrite_append(old(mem)@, output_offset as int, kept_before, chunk@);
            }
            out_len = out_len + elem_size;
        } else {
            assert(kept_elements(src, sz, keep@.take(i as int)) + Seq::<u8>::empty() =~= kept_elements(src, sz, keep@.take(i as int)));
        }
        i = i + 1;
    }
    assert(keep@.take(i as int) =~= keep@);
    out_len
}

} // verus!
