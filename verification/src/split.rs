//! Splitting a table into near-equal chunks: the sizes of the chunks, the
//! offset/limit slice that produces each one, and the file each is written
//! to.
//!
//! For `total` rows and `n` chunks, every chunk takes `total / n` rows and
//! the first `total % n` chunks take one extra row, so the sizes sum exactly
//! to `total` and the slices cover the table contiguously, in order, without
//! overlap.

use vstd::prelude::*;
use vstd::string::*;
use vstd::arithmetic::div_mod::lemma_fundamental_div_mod;
use vstd::arithmetic::div_mod::lemma_mod_bound;
use vstd::arithmetic::mul::lemma_mul_inequality;

use crate::text::dec_digits;
use crate::text::push_decimal;
use crate::utils::extension_of;
use crate::utils::DfKitError;

verus! {

/// The number of rows of chunk `i` when `total` rows are split into `n`
/// chunks: the remainder is handed out one row per chunk from the first.
pub open spec fn spec_chunk_size(total: int, n: int, i: int) -> int
    recommends
        0 < n,
{
    if i < total % n {
        total / n + 1
    } else {
        total / n
    }
}

/// The row offset at which chunk `i` starts: the sum of the sizes of the
/// chunks before it.
pub open spec fn spec_chunk_offset(total: int, n: int, i: int) -> int
    recommends
        0 < n,
{
    i * (total / n) + (if i < total % n {
        i
    } else {
        total % n
    })
}

/// The sum of the elements of `s`.
pub open spec fn sum_usize(s: Seq<usize>) -> int
    decreases s.len(),
{
    if s.len() == 0 {
        0
    } else {
        sum_usize(s.drop_last()) + s.last()
    }
}

proof fn lemma_chunk_offset_step(total: int, n: int, i: int)
    requires
        0 < n,
        0 <= i < n,
        0 <= total,
    ensures
        spec_chunk_offset(total, n, i) + spec_chunk_size(total, n, i) == spec_chunk_offset(
            total,
            n,
            i + 1,
        ),
{
    let base = total / n;
    assert((i + 1) * base == i * base + base) by (nonlinear_arith);
}

proof fn lemma_chunk_offset_le_total(total: int, n: int, k: int)
    requires
        0 < n,
        0 <= k <= n,
        0 <= total,
    ensures
        spec_chunk_offset(total, n, k) <= total,
        spec_chunk_offset(total, n, n) == total,
{
    let base = total / n;
    let rem = total % n;
    lemma_fundamental_div_mod(total, n);
    lemma_mod_bound(total, n);
    lemma_mul_inequality(k, n, base);
    assert(n * base == base * n) by (nonlinear_arith);
}

/// The row counts of the `n` chunks of a `total_rows`-row table: near-equal
/// sizes that sum exactly to the total, the remainder distributed one row
/// per chunk starting from the first. A chunk count of zero, or one larger
/// than the row count (a chunk must hold at least one row), is rejected
/// before anything is written.
pub fn chunk_sizes(total_rows: usize, chunks: usize) -> (r: Result<Vec<usize>, DfKitError>)
    ensures
        chunks == 0 ==> (r matches Err(DfKitError::CustomError(m)) && m@
            == "Chunks must be greater than 0"@),
        chunks > total_rows ==> (r matches Err(DfKitError::CustomError(m)) && m@
            == "Chunks must be smaller than total rows"@),
        0 < chunks <= total_rows ==> (r matches Ok(v) && v@.len() == chunks && (forall|i: int|
            0 <= i < chunks ==> v@[i] == spec_chunk_size(total_rows as int, chunks as int, i))
            && sum_usize(v@) == total_rows),
{
    if chunks == 0 {
        return Err(DfKitError::CustomError(String::from_str("Chunks must be greater than 0")));
    }
    if chunks > total_rows {
        return Err(
            DfKitError::CustomError(String::from_str("Chunks must be smaller than total rows")),
        );
    }
    let base = total_rows / chunks;
    let rem = total_rows % chunks;
    let mut v: Vec<usize> = Vec::new();
    let mut acc: usize = 0;
    let mut i: usize = 0;
    while i < chunks
        invariant
            0 < chunks <= total_rows,
            base == total_rows as int / chunks as int,
            rem == total_rows as int % chunks as int,
            i <= chunks,
            v@.len() == i,
            forall|j: int|
                0 <= j < i ==> v@[j] == spec_chunk_size(total_rows as int, chunks as int, j),
            acc == spec_chunk_offset(total_rows as int, chunks as int, i as int),
            acc == sum_usize(v@),
            acc <= total_rows,
        decreases chunks - i,
    {
        proof {
            lemma_chunk_offset_step(total_rows as int, chunks as int, i as int);
            lemma_chunk_offset_le_total(total_rows as int, chunks as int, i + 1);
        }
        let size = if i < rem {
            base + 1
        } else {
            base
        };
        acc = acc + size;
        let ghost prev = v@;
        v.push(size);
        proof {
            assert(v@.drop_last() =~= prev);
        }
        i += 1;
    }
    proof {
        lemma_chunk_offset_le_total(total_rows as int, chunks as int, chunks as int);
    }
    Ok(v)
}

/// The offset/limit slice that produces each chunk: chunk `i` begins where
/// chunk `i - 1` ends, so the slices are contiguous, non-overlapping, cover
/// the table exactly, and preserve row order. Preconditions are those of
/// `chunk_sizes`.
pub fn chunk_plan(total_rows: usize, chunks: usize) -> (r: Result<Vec<(usize, usize)>, DfKitError>)
    ensures
        chunks == 0 ==> (r matches Err(DfKitError::CustomError(m)) && m@
            == "Chunks must be greater than 0"@),
        chunks > total_rows ==> (r matches Err(DfKitError::CustomError(m)) && m@
            == "Chunks must be smaller than total rows"@),
        0 < chunks <= total_rows ==> (r matches Ok(v) && v@.len() == chunks && (forall|i: int|
            0 <= i < chunks ==> v@[i].0 == spec_chunk_offset(total_rows as int, chunks as int, i)
                && v@[i].1 == spec_chunk_size(total_rows as int, chunks as int, i))),
{
    let sizes = match chunk_sizes(total_rows, chunks) {
        Ok(s) => s,
        Err(e) => {
            return Err(e);
        },
    };
    let mut v: Vec<(usize, usize)> = Vec::new();
    let mut offset: usize = 0;
    let mut i: usize = 0;
    while i < sizes.len()
        invariant
            0 < chunks <= total_rows,
            sizes@.len() == chunks,
            forall|j: int|
                0 <= j < chunks ==> sizes@[j] == spec_chunk_size(
                    total_rows as int,
                    chunks as int,
                    j,
                ),
            i <= chunks,
            v@.len() == i,
            forall|j: int|
                0 <= j < i ==> v@[j].0 == spec_chunk_offset(total_rows as int, chunks as int, j)
                    && v@[j].1 == spec_chunk_size(total_rows as int, chunks as int, j),
            offset == spec_chunk_offset(total_rows as int, chunks as int, i as int),
            offset <= total_rows,
        decreases chunks - i,
    {
        proof {
            lemma_chunk_offset_step(total_rows as int, chunks as int, i as int);
            lemma_chunk_offset_le_total(total_rows as int, chunks as int, i + 1);
        }
        let size = sizes[i];
        v.push((offset, size));
        offset = offset + size;
        i += 1;
    }
    Ok(v)
}

/// The base name of a path: the characters after its last `/`, or the whole
/// path when it has none.
pub open spec fn base_name_of(s: Seq<char>) -> Seq<char>
    decreases s.len(),
{
    if s.len() == 0 {
        s
    } else if s.last() == '/' {
        Seq::empty()
    } else {
        base_name_of(s.drop_last()).push(s.last())
    }
}

/// The stem of a path's base name: the part before the final `.`, except
/// that a base name with no `.`, or whose only `.` leads it, is its own
/// stem.
pub open spec fn spec_file_stem(s: Seq<char>) -> Seq<char> {
    let b = base_name_of(s);
    match extension_of(b) {
        Some(e) => {
            if b.len() - e.len() - 1 == 0 {
                b
            } else {
                b.take(b.len() - e.len() - 1)
            }
        },
        None => b,
    }
}

proof fn lemma_base_name_suffix(s: Seq<char>, p: int)
    requires
        0 <= p <= s.len(),
        forall|k: int| p <= k < s.len() ==> s[k] != '/',
        p > 0 ==> s[p - 1] == '/',
    ensures
        base_name_of(s) == s.skip(p),
    decreases s.len(),
{
    if s.len() == 0 {
        assert(s.skip(0) =~= s);
    } else if s.last() == '/' {
        assert(p == s.len());
        assert(s.skip(p) =~= Seq::<char>::empty());
    } else {
        lemma_base_name_suffix(s.drop_last(), p);
        assert(s.drop_last().skip(p).push(s.last()) =~= s.skip(p));
    }
}

proof fn lemma_extension_len(s: Seq<char>)
    ensures
        extension_of(s) matches Some(e) ==> e.len() < s.len(),
    decreases s.len(),
{
    if s.len() > 0 && s.last() != '.' {
        lemma_extension_len(s.drop_last());
    }
}

/// The stem of `path`: its base name with the extension suffix removed.
/// Used to derive the names of a split's chunk files from the source path.
pub fn file_stem(path: &str) -> (r: String)
    ensures
        r@ == spec_file_stem(path@),
{
    let len = path.unicode_len();
    let mut p: usize = len;
    while p > 0 && path.get_char(p - 1) != '/'
        invariant
            len == path@.len(),
            p <= len,
            forall|k: int| p <= k < len ==> path@[k] != '/',
        decreases p,
    {
        p -= 1;
    }
    proof {
        lemma_base_name_suffix(path@, p as int);
    }
    let base = path.substring_char(p, len);
    proof {
        assert(base@ =~= path@.skip(p as int));
    }
    let blen = len - p;
    let mut d: usize = blen;
    while d > 0 && base.get_char(d - 1) != '.'
        invariant
            blen == base@.len(),
            d <= blen,
            forall|k: int| d <= k < blen ==> base@[k] != '.',
        decreases d,
    {
        d -= 1;
    }
    if d <= 1 {
        proof {
            if d == 0 {
                crate::utils::lemma_extension_none(base@);
            } else {
                crate::utils::lemma_extension_after_last_dot(base@, 0);
                lemma_extension_len(base@);
            }
        }
        return String::from_str(base);
    }
    proof {
        crate::utils::lemma_extension_after_last_dot(base@, d - 1);
        lemma_extension_len(base@);
        assert(base@.skip(d as int).len() == blen - d);
    }
    let stem = base.substring_char(0, d - 1);
    proof {
        assert(stem@ =~= base@.take(d - 1));
    }
    String::from_str(stem)
}

/// The file name chunk number `number` (1-based) is written under:
/// `<stem>_<number>.<extension>`, preserving the source's stem and
/// extension.
pub fn chunk_file_name(stem: &str, number: usize, extension: &str) -> (r: String)
    ensures
        r@ == stem@ + seq!['_'] + dec_digits(number as nat) + seq!['.'] + extension@,
{
    let mut out = String::from_str(stem);
    out.append("_");
    push_decimal(&mut out, number);
    out.append(".");
    out.append(extension);
    proof {
        reveal_strlit("_");
        reveal_strlit(".");
        assert("_"@ =~= seq!['_']);
        assert("."@ =~= seq!['.']);
        assert(stem@ + "_"@ + dec_digits(number as nat) + "."@ + extension@ =~= stem@ + seq!['_']
            + dec_digits(number as nat) + seq!['.'] + extension@);
    }
    out
}

} // verus!

