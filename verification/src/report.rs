//! Rendering of the benchmark's output records: decimal numerals, the
//! per-algorithm results-file lines, and the per-trial progress line.

use vstd::prelude::*;
use vstd::string::StringExecFns;

verus! {

/// The character for the single decimal digit `d`.
pub open spec fn digit_char(d: nat) -> char {
    if d == 0 {
        '0'
    } else if d == 1 {
        '1'
    } else if d == 2 {
        '2'
    } else if d == 3 {
        '3'
    } else if d == 4 {
        '4'
    } else if d == 5 {
        '5'
    } else if d == 6 {
        '6'
    } else if d == 7 {
        '7'
    } else if d == 8 {
        '8'
    } else {
        '9'
    }
}

/// The decimal numeral of `n`, most significant digit first, with no sign
/// and no leading zeros (a single `'0'` for zero).
pub open spec fn decimal(n: nat) -> Seq<char>
    decreases n,
{
    if n < 10 {
        seq![digit_char(n)]
    } else {
        decimal(n / 10).push(digit_char(n % 10))
    }
}

/// One record of a per-algorithm results file.
pub open spec fn record_line(size: nat, nanos: nat) -> Seq<char> {
    "Size: "@ + decimal(size) + ", Time: "@ + decimal(nanos) + " nanoseconds\n"@
}

/// The per-trial progress line reported on standard output (without the
/// trailing line break).
pub open spec fn progress_record(
    size: nat,
    hybrid_nanos: nat,
    merge_nanos: nat,
    selection_nanos: nat,
) -> Seq<char> {
    "Size: "@ + decimal(size) + ", Hybrid Sort: "@ + decimal(hybrid_nanos)
        + " nanoseconds, Merge Sort: "@ + decimal(merge_nanos)
        + " nanoseconds, Selection Sort: "@ + decimal(selection_nanos) + " nanoseconds"@
}

/// The number of line breaks in `s`.
pub open spec fn line_count(s: Seq<char>) -> nat
    decreases s.len(),
{
    if s.len() == 0 {
        0
    } else {
        line_count(s.drop_last()) + (if s.last() == '\n' {
            1nat
        } else {
            0nat
        })
    }
}

/// Line breaks are counted piecewise over a concatenation.
pub proof fn lemma_line_count_add(a: Seq<char>, b: Seq<char>)
    ensures
        line_count(a + b) == line_count(a) + line_count(b),
    decreases b.len(),
{
    if b.len() == 0 {
        assert(a + b =~= a);
    } else {
        lemma_line_count_add(a, b.drop_last());
        assert((a + b).drop_last() =~= a + b.drop_last());
        assert((a + b).last() == b.last());
    }
}

/// A sequence with no line break in it counts no line.
proof fn lemma_line_count_free(s: Seq<char>)
    requires
        forall|i: int| 0 <= i < s.len() ==> s[i] != '\n',
    ensures
        line_count(s) == 0,
    decreases s.len(),
{
    if s.len() > 0 {
        lemma_line_count_free(s.drop_last());
    }
}

/// A decimal numeral holds digits only, never a line break.
proof fn lemma_decimal_no_newline(n: nat)
    ensures
        forall|i: int| 0 <= i < decimal(n).len() ==> decimal(n)[i] != '\n',
    decreases n,
{
    if n >= 10 {
        lemma_decimal_no_newline(n / 10);
        assert forall|i: int| 0 <= i < decimal(n).len() implies decimal(n)[i] != '\n' by {
            if i < decimal(n).len() - 1 {
                assert(decimal(n)[i] == decimal(n / 10)[i]);
            } else {
                assert(decimal(n)[i] == digit_char(n % 10));
            }
        }
    }
}

/// Each results-file record is exactly one line, closed by its line break.
pub proof fn lemma_record_line_one_line(size: nat, nanos: nat)
    ensures
        line_count(record_line(size, nanos)) == 1,
{
    reveal_strlit("Size: ");
    reveal_strlit(", Time: ");
    reveal_strlit(" nanoseconds\n");
    lemma_decimal_no_newline(size);
    lemma_decimal_no_newline(nanos);
    lemma_line_count_free("Size: "@);
    lemma_line_count_free(decimal(size));
    lemma_line_count_free(", Time: "@);
    lemma_line_count_free(decimal(nanos));
    let tail = " nanoseconds\n"@;
    lemma_line_count_free(tail.drop_last());
    assert(line_count(tail) == 1);
    lemma_line_count_add("Size: "@, decimal(size));
    lemma_line_count_add("Size: "@ + decimal(size), ", Time: "@);
    lemma_line_count_add("Size: "@ + decimal(size) + ", Time: "@, decimal(nanos));
    lemma_line_count_add("Size: "@ + decimal(size) + ", Time: "@ + decimal(nanos), tail);
}

/// Appends the single decimal digit `d` to `s`.
fn push_digit(s: &mut String, d: u128)
    requires
        d < 10,
    ensures
        final(s)@ == old(s)@ + seq![digit_char(d as nat)],
{
    if d == 0 {
        s.append("0");
        proof {
            reveal_strlit("0");
            assert(("0")@ =~= seq![digit_char(d as nat)]);
        }
    } else if d == 1 {
        s.append("1");
        proof {
            reveal_strlit("1");
            assert(("1")@ =~= seq![digit_char(d as nat)]);
        }
    } else if d == 2 {
        s.append("2");
        proof {
            reveal_strlit("2");
            assert(("2")@ =~= seq![digit_char(d as nat)]);
        }
    } else if d == 3 {
        s.append("3");
        proof {
            reveal_strlit("3");
            assert(("3")@ =~= seq![digit_char(d as nat)]);
        }
    } else if d == 4 {
        s.append("4");
        proof {
            reveal_strlit("4");
            assert(("4")@ =~= seq![digit_char(d as nat)]);
        }
    } else if d == 5 {
        s.append("5");
        proof {
            reveal_strlit("5");
            assert(("5")@ =~= seq![digit_char(d as nat)]);
        }
    } else if d == 6 {
        s.append("6");
        proof {
            reveal_strlit("6");
            assert(("6")@ =~= seq![digit_char(d as nat)]);
        }
    } else if d == 7 {
        s.append("7");
        proof {
            reveal_strlit("7");
            assert(("7")@ =~= seq![digit_char(d as nat)]);
        }
    } else if d == 8 {
        s.append("8");
        proof {
            reveal_strlit("8");
            assert(("8")@ =~= seq![digit_char(d as nat)]);
        }
    } else {
        s.append("9");
        proof {
            reveal_strlit("9");
            assert(("9")@ =~= seq![digit_char(d as nat)]);
        }
    }
}

/// Appends the decimal numeral of `n` to `s`.
pub fn push_decimal(s: &mut String, n: u128)
    ensures
        final(s)@ == old(s)@ + decimal(n as nat),
    decreases n,
{
    if n >= 10 {
        push_decimal(s, n / 10);
        push_digit(s, n % 10);
        proof {
            assert(final(s)@ =~= old(s)@ + decimal(n as nat));
        }
    } else {
        push_digit(s, n);
    }
}

/// Renders the results-file record for a trial of `size` elements whose
/// sort took `nanos` nanoseconds.
pub fn format_record(size: usize, nanos: u128) -> (r: String)
    ensures
        r@ == record_line(size as nat, nanos as nat),
{
    let mut r = String::new();
    r.append("Size: ");
    push_decimal(&mut r, size as u128);
    r.append(", Time: ");
    push_decimal(&mut r, nanos);
    r.append(" nanoseconds\n");
    proof {
        assert(r@ =~= record_line(size as nat, nanos as nat));
    }
    r
}

/// Renders the progress line for one trial.
pub fn format_progress(size: usize, hybrid_nanos: u128, merge_nanos: u128, selection_nanos: u128) -> (r:
    String)
    ensures
        r@ == progress_record(
            size as nat,
            hybrid_nanos as nat,
            merge_nanos as nat,
            selection_nanos as nat,
        ),
{
    let mut r = String::new();
    r.append("Size: ");
    push_decimal(&mut r, size as u128);
    r.append(", Hybrid Sort: ");
    push_decimal(&mut r, hybrid_nanos);
    r.append(" nanoseconds, Merge Sort: ");
    push_decimal(&mut r, merge_nanos);
    r.append(" nanoseconds, Selection Sort: ");
    push_decimal(&mut r, selection_nanos);
    r.append(" nanoseconds");
    proof {
        assert(r@ =~= progress_record(
            size as nat,
            hybrid_nanos as nat,
            merge_nanos as nat,
            selection_nanos as nat,
        ));
    }
    r
}

} // verus!
