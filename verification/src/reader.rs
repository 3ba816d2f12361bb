//! The target-stream reader: tailing an append-only, line-oriented file.
//!
//! The caller hands the reader the file's bytes and the count of lines
//! already consumed. The reader skips that many lines, parses each remaining
//! line as a target record — silently dropping lines that do not parse, as a
//! worker may have died mid-write — and advances the count to the total
//! number of lines seen. A line once counted is never read again.

use vstd::prelude::*;
use crate::buffer::{buf_view, BufferedV, TargetWithContext};
use crate::codec::{parse_target, spec_parse};
use crate::num::{find_byte, lemma_find_byte};
use crate::target::NEWLINE;

verus! {

/// The lines of a byte stream, starting at offset `i`: maximal runs between
/// separators; bytes after the last separator form a final line only when
/// there are any.
pub open spec fn spec_lines_from(s: Seq<u8>, i: int) -> Seq<Seq<u8>>
    decreases s.len() - i,
{
    if i < 0 || i >= s.len() {
        Seq::empty()
    } else {
        let j = find_byte(s, NEWLINE, i);
        if j >= s.len() {
            seq![s.subrange(i, s.len() as int)]
        } else if j < i {
            Seq::empty()
        } else {
            seq![s.subrange(i, j)] + spec_lines_from(s, j + 1)
        }
    }
}

/// The lines of a whole byte stream.
pub open spec fn spec_lines(s: Seq<u8>) -> Seq<Seq<u8>> {
    spec_lines_from(s, 0)
}

/// The records that a read yields from `lines` when `k` lines were already
/// consumed: each later line that parses, wrapped with the reuse seed and
/// the ingestion step.
pub open spec fn spec_new_records(lines: Seq<Seq<u8>>, k: int, uses: u32, steps: u64) -> Seq<
    BufferedV,
>
    decreases lines.len() - k,
{
    if k < 0 || k >= lines.len() {
        Seq::empty()
    } else {
        let rest = spec_new_records(lines, k + 1, uses, steps);
        match spec_parse(lines[k]) {
            Some(tv) => seq![
                BufferedV { target: tv, uses_available: uses, model_steps: steps },
            ] + rest,
            None => rest,
        }
    }
}

/// A read that starts at or past the end of the stream yields nothing: a
/// second read with no new lines appended returns zero records.
pub proof fn lemma_reread_empty(lines: Seq<Seq<u8>>, k: int, uses: u32, steps: u64)
    requires
        k >= lines.len(),
    ensures
        spec_new_records(lines, k, uses, steps) == Seq::<BufferedV>::empty(),
{
}

/// Copies the bytes of `s` from `from` to `to`.
fn copy_range(s: &Vec<u8>, from: usize, to: usize) -> (r: Vec<u8>)
    requires
        from <= to <= s@.len(),
    ensures
        r@ == s@.subrange(from as int, to as int),
{
    let mut r: Vec<u8> = Vec::new();
    let mut i: usize = from;
    while i < to
        invariant
            from <= i <= to <= s@.len(),
            r@ == s@.subrange(from as int, i as int),
        decreases to - i,
    {
        r.push(s[i]);
        i = i + 1;
        proof {
            assert(r@ =~= s@.subrange(from as int, i as int));
        }
    }
    proof {
        assert(r@ =~= s@.subrange(from as int, to as int));
    }
    r
}

/// Reads the stream's bytes: skips the lines already consumed, parses each
/// remaining line, appends every record that parses to the buffer with the
/// given reuse seed and ingestion step, and advances the consumed-line count
/// to the number of lines in the stream.
#[verifier::loop_isolation(false)]
#[verifier::rlimit(100)]
pub fn fill_buffer_with_targets(
    buffer: &mut Vec<TargetWithContext>,
    targets_already_read: &mut usize,
    bytes: &Vec<u8>,
    uses_available: u32,
    model_steps: u64,
)
    ensures
        buf_view(final(buffer)@) == buf_view(old(buffer)@) + spec_new_records(
            spec_lines(bytes@),
            *old(targets_already_read) as int,
            uses_available,
            model_steps,
        ),
        *final(targets_already_read) as int == vstd::math::max(
            *old(targets_already_read) as int,
            spec_lines(bytes@).len() as int,
        ),
{
    let ghost lines = spec_lines(bytes@);
    let ghost k0 = *targets_already_read as int;
    let ghost buf0 = buffer@;
    let k = *targets_already_read;
    let n = bytes.len();
    let mut line_start: usize = 0;
    let mut line_idx: usize = 0;
    while line_start < n
        invariant
            line_start <= n,
            line_idx <= line_start,
            line_idx <= lines.len(),
            spec_lines_from(bytes@, line_start as int) == lines.skip(line_idx as int),
            line_idx as int <= k0 ==> buffer@ == buf0,
            line_idx as int >= k0 ==> buf_view(buf0) + spec_new_records(
                lines,
                k0,
                uses_available,
                model_steps,
            ) == buf_view(buffer@) + spec_new_records(
                lines,
                line_idx as int,
                uses_available,
                model_steps,
            ),
        decreases n - line_start,
    {
        let ghost li = line_idx as int;
        let ghost start = line_start as int;
        // Find the end of the current line.
        let mut j: usize = line_start;
        while j < n && bytes[j] != NEWLINE
            invariant
                line_start <= j <= n,
                forall|m: int| start <= m < j ==> bytes@[m] != NEWLINE,
                find_byte(bytes@, NEWLINE, start) == find_byte(bytes@, NEWLINE, j as int),
            decreases n - j,
        {
            proof {
                assert(find_byte(bytes@, NEWLINE, j as int) == find_byte(
                    bytes@,
                    NEWLINE,
                    j + 1,
                ));
            }
            j = j + 1;
        }
        proof {
            assert(find_byte(bytes@, NEWLINE, j as int) == j as int);
            lemma_find_byte(bytes@, NEWLINE, start);
        }
        let ghost cur = if j == n {
            bytes@.subrange(start, n as int)
        } else {
            bytes@.subrange(start, j as int)
        };
        proof {
            // The current line is the next line of the stream.
            if j == n {
                assert(spec_lines_from(bytes@, start) =~= seq![cur]);
            } else {
                assert(spec_lines_from(bytes@, start) =~= seq![cur] + spec_lines_from(
                    bytes@,
                    j + 1,
                ));
            }
            assert(lines.skip(li)[0] == cur);
            assert(lines[li] == cur);
            assert(lines.skip(li + 1) =~= lines.skip(li).skip(1));
            if j == n {
                assert(lines.skip(li + 1) =~= Seq::<Seq<u8>>::empty());
                assert(spec_lines_from(bytes@, n as int) =~= Seq::<Seq<u8>>::empty());
            } else {
                assert(lines.skip(li + 1) =~= spec_lines_from(bytes@, j + 1));
            }
        }
        // Parse the line unless it was consumed by an earlier read.
        if line_idx >= k {
            let ghost bufpre = buffer@;
            let line = copy_range(bytes, line_start, j);
            match parse_target(&line) {
                Some(t) => {
                    let rec = TargetWithContext {
                        target: t,
                        uses_available,
                        model_steps,
                    };
                    proof {
                        assert(rec@ == BufferedV {
                            target: t@,
                            uses_available,
                            model_steps,
                        });
                    }
                    buffer.push(rec);
                    proof {
                        assert(buf_view(buffer@) =~= buf_view(bufpre).push(rec@));
                    }
                }
                None => {}
            }
            proof {
                // One step of the record recursion.
                let snr_li = spec_new_records(lines, li, uses_available, model_steps);
                let snr_next = spec_new_records(lines, li + 1, uses_available, model_steps);
                match spec_parse(cur) {
                    Some(tv) => {
                        assert(snr_li =~= seq![
                            BufferedV {
                                target: tv,
                                uses_available,
                                model_steps,
                            },
                        ] + snr_next);
                        assert(buf_view(buffer@) + snr_next =~= buf_view(bufpre) + snr_li);
                    }
                    None => {
                        assert(snr_li =~= snr_next);
                    }
                }
                assert(buf_view(buf0) + spec_new_records(lines, k0, uses_available, model_steps)
                    =~= buf_view(buffer@) + snr_next);
            }
        }
        line_idx = line_idx + 1;
        line_start = if j < n {
            j + 1
        } else {
            n
        };
    }
    proof {
        assert(spec_lines_from(bytes@, n as int) =~= Seq::<Seq<u8>>::empty());
        assert(lines.skip(line_idx as int).len() == 0);
        assert(line_idx as int == lines.len());
    }
    if line_idx > k {
        *targets_already_read = line_idx;
    }
    proof {
        if line_idx as int >= k0 {
            assert(spec_new_records(lines, line_idx as int, uses_available, model_steps)
                =~= Seq::<BufferedV>::empty());
            assert(buf_view(buffer@) =~= buf_view(buffer@) + Seq::<BufferedV>::empty());
        } else {
            assert(spec_new_records(lines, k0, uses_available, model_steps)
                =~= Seq::<BufferedV>::empty());
            assert(buf_view(buffer@) =~= buf_view(buf0) + Seq::<BufferedV>::empty());
        }
    }
}

} // verus!
