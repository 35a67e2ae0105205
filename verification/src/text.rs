//! Wording: numbers in decimal, and texts line by line.

use vstd::prelude::*;

verus! {

/// The character of a decimal digit.
pub open spec fn digit(d: int) -> char {
    if d == 0 {
        '0'
    } else if d == 1 {
        '1'
    } else if d == 2 {
        '2'
    } else if d == 3 {
        '3'
    } else if d == 4 {
        '4'
    } else if d == 5 {
        '5'
    } else if d == 6 {
        '6'
    } else if d == 7 {
        '7'
    } else if d == 8 {
        '8'
    } else {
        '9'
    }
}

/// The decimal digits of a natural number, without leading zeros.
pub open spec fn spec_digits(n: nat) -> Seq<char>
    decreases n,
{
    if n < 10 {
        seq![digit(n as int)]
    } else {
        spec_digits(n / 10).push(digit((n % 10) as int))
    }
}

/// An integer in decimal, with a minus sign where it is negative.
pub open spec fn spec_decimal(i: int) -> Seq<char> {
    if i < 0 {
        seq!['-'] + spec_digits((-i) as nat)
    } else {
        spec_digits(i as nat)
    }
}

fn digit_text(d: u64) -> (r: &'static str)
    requires
        d < 10,
    ensures
        r@ == seq![digit(d as int)],
{
    proof {
        reveal_strlit("0");
        reveal_strlit("1");
        reveal_strlit("2");
        reveal_strlit("3");
        reveal_strlit("4");
        reveal_strlit("5");
        reveal_strlit("6");
        reveal_strlit("7");
        reveal_strlit("8");
        reveal_strlit("9");
    }
    let r = if d == 0 {
        "0"
    } else if d == 1 {
        "1"
    } else if d == 2 {
        "2"
    } else if d == 3 {
        "3"
    } else if d == 4 {
        "4"
    } else if d == 5 {
        "5"
    } else if d == 6 {
        "6"
    } else if d == 7 {
        "7"
    } else if d == 8 {
        "8"
    } else {
        "9"
    };
    assert(r@ =~= seq![digit(d as int)]);
    r
}

/// The decimal digits of `n`.
pub fn digits(n: u64) -> (r: String)
    ensures
        r@ == spec_digits(n as nat),
    decreases n,
{
    if n < 10 {
        digit_text(n).to_owned()
    } else {
        let mut r = digits(n / 10);
        r.append(digit_text(n % 10));
        assert(r@ =~= spec_digits(n as nat));
        r
    }
}

/// `i` in decimal.
pub fn decimal(i: i32) -> (r: String)
    ensures
        r@ == spec_decimal(i as int),
{
    if i < 0 {
        proof {
            reveal_strlit("-");
        }
        let magnitude: u64 = (0 - (i as i64)) as u64;
        let mut r = "-".to_owned();
        let rest = digits(magnitude);
        r.append(rest.as_str());
        assert(r@ =~= spec_decimal(i as int));
        r
    } else {
        digits(i as u64)
    }
}

/// The texts of `parts` with `separator` between each two.
pub open spec fn joined(parts: Seq<Seq<char>>, separator: Seq<char>) -> Seq<char>
    decreases parts.len(),
{
    if parts.len() == 0 {
        Seq::empty()
    } else if parts.len() == 1 {
        parts[0]
    } else {
        joined(parts.drop_last(), separator) + separator + parts.last()
    }
}

/// A line without the carriage return at its end, if it has one.
pub open spec fn without_return(line: Seq<char>) -> Seq<char> {
    if line.len() > 0 && line.last() == '\r' {
        line.drop_last()
    } else {
        line
    }
}

/// The lines of `rest`, where `current` is what was read of the line that
/// `rest` goes on with.
pub open spec fn lines_from(rest: Seq<char>, current: Seq<char>) -> Seq<Seq<char>>
    decreases rest.len(),
{
    if rest.len() == 0 {
        if current.len() == 0 {
            Seq::empty()
        } else {
            seq![current]
        }
    } else if rest[0] == '\n' {
        seq![without_return(current)] + lines_from(rest.drop_first(), Seq::empty())
    } else {
        lines_from(rest.drop_first(), current.push(rest[0]))
    }
}

/// The lines of a text. A line ends at a line feed; a carriage return
/// directly before the line feed belongs to the line ending. What follows
/// the last line feed is a line of its own unless it is empty.
pub open spec fn spec_lines(text: Seq<char>) -> Seq<Seq<char>> {
    lines_from(text, Seq::empty())
}

/// The views of a sequence of texts.
pub open spec fn texts(lines: Seq<String>) -> Seq<Seq<char>> {
    Seq::new(lines.len(), |i: int| lines[i]@)
}

/// The lines of `text`.
pub fn lines(text: &str) -> (r: Vec<String>)
    ensures
        texts(r@) == spec_lines(text@),
{
    let n = text.unicode_len();
    let mut out: Vec<String> = Vec::new();
    let mut start: usize = 0;
    let mut i: usize = 0;
    assert(text@.skip(0) =~= text@);
    assert(text@.subrange(0, 0) =~= Seq::<char>::empty());
    assert(texts(out@) + spec_lines(text@) =~= spec_lines(text@));
    while i < n
        invariant
            start <= i <= n,
            n == text@.len(),
            spec_lines(text@) == texts(out@) + lines_from(
                text@.skip(i as int),
                text@.subrange(start as int, i as int),
            ),
        decreases n - i,
    {
        let ghost rest = text@.skip(i as int);
        let ghost current = text@.subrange(start as int, i as int);
        proof {
            assert(rest[0] == text@[i as int]);
            assert(rest.drop_first() =~= text@.skip(i + 1));
        }
        if text.get_char(i) == '\n' {
            let end = if i > start && text.get_char(i - 1) == '\r' {
                i - 1
            } else {
                i
            };
            let line = text.substring_char(start, end).to_owned();
            proof {
                assert(line@ =~= without_return(current));
                assert(text@.subrange(i + 1, i + 1) =~= Seq::<char>::empty());
                assert(texts(out@.push(line)) + lines_from(text@.skip(i + 1), Seq::empty())
                    =~= texts(out@) + (seq![line@] + lines_from(
                    text@.skip(i + 1),
                    Seq::empty(),
                )));
            }
            out.push(line);
            start = i + 1;
        } else {
            proof {
                assert(current.push(text@[i as int]) =~= text@.subrange(start as int, i + 1));
            }
        }
        i += 1;
    }
    assert(text@.skip(n as int) =~= Seq::<char>::empty());
    if start < n {
        let line = text.substring_char(start, n).to_owned();
        proof {
            assert(texts(out@.push(line)) =~= texts(out@) + seq![line@]);
        }
        out.push(line);
    } else {
        assert(text@.subrange(start as int, n as int) =~= Seq::<char>::empty());
        assert(texts(out@) + Seq::<Seq<char>>::empty() =~= texts(out@));
    }
    out
}

/// Each line with four spaces before it.
pub open spec fn indent_each(lines: Seq<Seq<char>>) -> Seq<Seq<char>> {
    Seq::new(lines.len(), |i: int| "    "@ + lines[i])
}

/// The lines of a text, each with four spaces before it, with a line feed
/// between each two.
pub open spec fn spec_indented(text: Seq<char>) -> Seq<char> {
    joined(indent_each(spec_lines(text)), "\n"@)
}

/// The lines of `text`, each with four spaces before it, with a line feed
/// between each two.
pub fn indented(text: &str) -> (r: String)
    ensures
        r@ == spec_indented(text@),
{
    let all = lines(text);
    let n = all.len();
    let ghost parts = indent_each(texts(all@));
    let mut r = String::new();
    let mut i: usize = 0;
    assert(parts.take(0) =~= Seq::<Seq<char>>::empty());
    while i < n
        invariant
            i <= n,
            n == all@.len(),
            parts == indent_each(texts(all@)),
            r@ == joined(parts.take(i as int), "\n"@),
        decreases n - i,
    {
        proof {
            assert(parts.take(i + 1).drop_last() =~= parts.take(i as int));
            assert(parts.take(i + 1).last() == parts[i as int]);
            assert(parts[i as int] == "    "@ + all@[i as int]@);
        }
        let ghost before = r@;
        if i > 0 {
            r.append("\n");
        }
        r.append("    ");
        r.append(all[i].as_str());
        proof {
            if i == 0 {
                assert(r@ =~= parts[0]);
            } else {
                assert(r@ =~= before + "\n"@ + parts[i as int]);
            }
        }
        i += 1;
    }
    assert(parts.take(n as int) =~= parts);
    r
}

} // verus!
