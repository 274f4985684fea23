//! Small pieces of text: decimal numbers, file names, peer lists.

use vstd::prelude::*;
use vstd::string::{StrSliceExecFns, StringExecFns};

verus! {

/// The decimal digit `d`.
pub open spec fn digit(d: nat) -> char {
    (0x30 + d) as char
}

/// `n` in decimal, without leading zeros.
pub open spec fn decimal(n: nat) -> Seq<char>
    decreases n,
{
    if n < 10 {
        seq![digit(n)]
    } else {
        decimal(n / 10).push(digit(n % 10))
    }
}

/// `s` with zeros in front, so that it is at least `width` long.
pub open spec fn zero_padded(s: Seq<char>, width: nat) -> Seq<char> {
    Seq::new(
        if s.len() < width {
            (width - s.len()) as nat
        } else {
            0
        },
        |i: int| '0',
    ) + s
}

/// The name of the directory of the block at `height`.
pub open spec fn block_dir(height: u64) -> Seq<char> {
    "block_"@ + zero_padded(decimal(height as nat), 4)
}

/// The path of `name` inside the directory `dir`.
pub open spec fn joined(dir: Seq<char>, name: Seq<char>) -> Seq<char> {
    if dir.len() == 0 || dir.last() == '/' {
        dir + name
    } else {
        dir + "/"@ + name
    }
}

/// The parts of `s` between commas, without the empty ones.
pub open spec fn comma_parts(s: Seq<char>) -> Seq<Seq<char>>
    decreases s.len(),
{
    if s.len() == 0 {
        Seq::empty()
    } else {
        let k = part_len(s);
        let head = if k == 0 {
            Seq::empty()
        } else {
            seq![s.take(k as int)]
        };
        if k >= s.len() {
            head
        } else {
            head + comma_parts(s.skip(k as int + 1))
        }
    }
}

/// How many characters stand before the first comma of `s`.
pub open spec fn part_len(s: Seq<char>) -> nat
    decreases s.len(),
{
    if s.len() == 0 || s[0] == ',' {
        0
    } else {
        1 + part_len(s.skip(1))
    }
}

fn push_digit(out: &mut String, d: u64)
    requires
        d < 10,
    ensures
        final(out)@ == old(out)@.push(digit(d as nat)),
{
    proof {
        reveal_strlit("0");
        reveal_strlit("1");
        reveal_strlit("2");
        reveal_strlit("3");
        reveal_strlit("4");
        reveal_strlit("5");
        reveal_strlit("6");
        reveal_strlit("7");
        reveal_strlit("8");
        reveal_strlit("9");
    }
    let s = if d == 0 {
        "0"
    } else if d == 1 {
        "1"
    } else if d == 2 {
        "2"
    } else if d == 3 {
        "3"
    } else if d == 4 {
        "4"
    } else if d == 5 {
        "5"
    } else if d == 6 {
        "6"
    } else if d == 7 {
        "7"
    } else if d == 8 {
        "8"
    } else {
        "9"
    };
    out.append(s);
    assert(out@ =~= old(out)@.push(digit(d as nat)));
}

/// Appends `n` in decimal.
pub fn push_decimal(out: &mut String, n: u64)
    ensures
        final(out)@ == old(out)@ + decimal(n as nat),
    decreases n,
{
    if n < 10 {
        push_digit(out, n);
        assert(out@ =~= old(out)@ + decimal(n as nat));
    } else {
        push_decimal(out, n / 10);
        push_digit(out, n % 10);
        assert(out@ =~= old(out)@ + decimal(n as nat));
    }
}

/// How long decimal numbers are.
proof fn lemma_decimal_len(n: nat)
    ensures
        n < 10 ==> decimal(n).len() == 1,
        10 <= n < 100 ==> decimal(n).len() == 2,
        100 <= n < 1000 ==> decimal(n).len() == 3,
        1000 <= n ==> decimal(n).len() >= 4,
    decreases n,
{
    if n >= 10 {
        lemma_decimal_len(n / 10);
    }
}

/// The directory name of the block at `height`.
pub fn block_dir_name(height: u64) -> (r: String)
    ensures
        r@ == block_dir(height),
{
    let mut out = String::new();
    out.append("block_");
    proof {
        lemma_decimal_len(height as nat);
        reveal_strlit("000");
        reveal_strlit("00");
        reveal_strlit("0");
    }
    if height < 10 {
        out.append("000");
    } else if height < 100 {
        out.append("00");
    } else if height < 1000 {
        out.append("0");
    }
    push_decimal(&mut out, height);
    assert(out@ =~= block_dir(height));
    out
}

/// The path of `name` inside the directory `dir`.
pub fn join(dir: &str, name: &str) -> (r: String)
    ensures
        r@ == joined(dir@, name@),
{
    let n = dir.unicode_len();
    let mut out = String::new();
    out.append(dir);
    assert(out@ =~= dir@);
    if n > 0 && dir.get_char(n - 1) != '/' {
        out.append("/");
    }
    out.append(name);
    assert(out@ =~= joined(dir@, name@));
    out
}

/// The parts of a comma-separated list, without the empty ones.
pub fn split_commas(list: &str) -> (r: Vec<String>)
    ensures
        r.len() == comma_parts(list@).len(),
        forall|i: int| 0 <= i < r.len() ==> (#[trigger] r@[i])@ == comma_parts(list@)[i],
{
    let n = list.unicode_len();
    let mut out: Vec<String> = Vec::new();
    let ghost parts: Seq<Seq<char>> = Seq::empty();
    let mut start: usize = 0;
    assert(list@.skip(0) =~= list@);
    while start < n
        invariant
            n == list@.len(),
            start <= n,
            out.len() == parts.len(),
            forall|i: int| 0 <= i < out.len() ==> (#[trigger] out@[i])@ == parts[i],
            comma_parts(list@) == parts + comma_parts(list@.skip(start as int)),
        decreases n - start,
    {
        let ghost rest = list@.skip(start as int);
        let mut end: usize = start;
        proof {
            assert(rest.skip(0) =~= rest);
        }
        while end < n && list.get_char(end) != ','
            invariant
                n == list@.len(),
                start <= end <= n,
                rest == list@.skip(start as int),
                part_len(rest) == (end - start) + part_len(rest.skip(end - start)),
            decreases n - end,
        {
            proof {
                assert(rest.skip(end - start)[0] == list@[end as int]);
                assert(rest.skip(end - start).skip(1) =~= rest.skip(end - start + 1));
            }
            end += 1;
        }
        proof {
            let tail = rest.skip(end - start);
            if end < n {
                assert(tail[0] == list@[end as int]);
            }
            assert(part_len(rest) == end - start);
            assert(rest.take(end - start) =~= list@.subrange(start as int, end as int));
        }
        let ghost before = parts;
        if start < end {
            out.push(list.substring_char(start, end).to_owned());
            proof {
                parts = parts.push(rest.take(end - start));
            }
        }
        proof {
            if end < n {
                assert(rest.skip(end - start + 1) =~= list@.skip(end + 1));
            }
            let next = if end < n { end + 1 } else { n as int };
            if next == n {
                assert(list@.skip(next) =~= Seq::<char>::empty());
            }
            assert(parts + comma_parts(list@.skip(next)) =~= before + comma_parts(rest));
        }
        start = if end < n {
            end + 1
        } else {
            n
        };
    }
    proof {
        assert(list@.skip(start as int) =~= Seq::<char>::empty());
        assert(comma_parts(list@) =~= parts);
    }
    out
}

/// Different heights have different directories.
pub proof fn law_block_dirs_distinct(a: u64, b: u64)
    requires
        block_dir(a) == block_dir(b),
    ensures
        a == b,
{
    let x = zero_padded(decimal(a as nat), 4);
    let y = zero_padded(decimal(b as nat), 4);
    let p = "block_"@;
    assert(block_dir(a).skip(p.len() as int) =~= x);
    assert(block_dir(b).skip(p.len() as int) =~= y);
    lemma_padded_value(a as nat);
    lemma_padded_value(b as nat);
}

/// The number that a sequence of digits stands for.
pub open spec fn digits_value(s: Seq<char>) -> nat
    decreases s.len(),
{
    if s.len() == 0 {
        0
    } else {
        10 * digits_value(s.drop_last()) + (s.last() as nat - 0x30) as nat
    }
}

proof fn lemma_decimal_value(n: nat)
    ensures
        digits_value(decimal(n)) == n,
        decimal(n).len() > 0,
    decreases n,
{
    if n < 10 {
        assert(decimal(n).drop_last() =~= Seq::<char>::empty());
        reveal_with_fuel(digits_value, 2);
    } else {
        lemma_decimal_value(n / 10);
        assert(decimal(n).drop_last() =~= decimal(n / 10));
    }
}

proof fn lemma_zeros_value(k: nat, s: Seq<char>)
    ensures
        digits_value(Seq::new(k, |i: int| '0') + s) == digits_value(s),
    decreases k + s.len(),
{
    let z = Seq::new(k, |i: int| '0');
    if s.len() > 0 {
        lemma_zeros_value(k, s.drop_last());
        assert((z + s).drop_last() =~= z + s.drop_last());
    } else if k > 0 {
        let y = Seq::new((k - 1) as nat, |i: int| '0');
        lemma_zeros_value((k - 1) as nat, s);
        assert(y + s =~= y);
        assert((z + s).drop_last() =~= y);
        assert((z + s).last() == '0');
    } else {
        assert(z + s =~= s);
    }
}

proof fn lemma_padded_value(n: nat)
    ensures
        digits_value(zero_padded(decimal(n), 4)) == n,
{
    lemma_decimal_value(n);
    let s = decimal(n);
    lemma_zeros_value(
        if s.len() < 4 {
            (4 - s.len()) as nat
        } else {
            0
        },
        s,
    );
}


/// A number is written digit by digit, the last digit last, and without leading
/// zeros.
pub proof fn law_decimal_digits(n: nat)
    ensures
        n < 10 ==> decimal(n).len() == 1 && decimal(n)[0] as int == 0x30 + n,
        n >= 10 ==> decimal(n).drop_last() == decimal(n / 10),
        n >= 10 ==> decimal(n).last() as int == 0x30 + n % 10,
        n > 0 ==> decimal(n)[0] as int != 0x30,
    decreases n,
{
    if n >= 10 {
        law_decimal_digits(n / 10);
        lemma_decimal_value(n / 10);
        assert(decimal(n).drop_last() =~= decimal(n / 10));
        assert(decimal(n)[0] == decimal(n / 10)[0]);
    }
}

/// The directory of a block is named after its height, in at least four digits.
pub proof fn law_block_dir_name(height: u64)
    ensures
        ({
            let digits = decimal(height as nat);
            let name = block_dir(height);
            let zeros = if digits.len() < 4 {
                4 - digits.len()
            } else {
                0
            };
            &&& name.take(6) == "block_"@
            &&& name.len() == 6 + zeros + digits.len()
            &&& name.skip(6 + zeros) == digits
            &&& forall|i: int| 6 <= i < 6 + zeros ==> #[trigger] name[i] == '0'
        }),
{
    reveal_strlit("block_");
    let digits = decimal(height as nat);
    let name = block_dir(height);
    let zeros = if digits.len() < 4 {
        4 - digits.len()
    } else {
        0
    };
    assert(name.take(6) =~= "block_"@);
    assert(name.skip(6 + zeros) =~= digits);
}

/// A path is the directory, a slash unless the directory is empty or ends with
/// one, and the name.
pub proof fn law_joined_path(dir: Seq<char>, name: Seq<char>)
    ensures
        dir.len() == 0 ==> joined(dir, name) == name,
        joined(dir.push('/'), name) == dir.push('/') + name,
        dir.len() > 0 && dir.last() != '/' ==> joined(dir, name) == dir.push('/') + name,
{
    reveal_strlit("/");
    if dir.len() == 0 {
        assert(dir + name =~= name);
    }
    assert(dir + "/"@ + name =~= dir.push('/') + name);
}

/// Whether no comma stands in `s`.
pub open spec fn comma_free(s: Seq<char>) -> bool {
    forall|i: int| 0 <= i < s.len() ==> #[trigger] s[i] != ','
}

/// A list is split at its commas: a text without commas is one part, unless it is
/// empty, and what stands before a comma is split off from what stands behind it.
pub proof fn law_split_at_commas(s: Seq<char>, rest: Seq<char>)
    requires
        comma_free(s),
    ensures
        s.len() == 0 ==> comma_parts(s) == Seq::<Seq<char>>::empty(),
        s.len() > 0 ==> comma_parts(s) == seq![s],
        comma_parts(s.push(',') + rest) == comma_parts(s) + comma_parts(rest),
{
    let t = s.push(',') + rest;
    lemma_part_len(s, Seq::empty());
    assert(s + Seq::<char>::empty() =~= s);
    lemma_part_len(s, seq![','] + rest);
    assert(s + (seq![','] + rest) =~= t);
    assert(t.take(s.len() as int) =~= s);
    assert(s.take(s.len() as int) =~= s);
    assert(t.skip(s.len() as int + 1) =~= rest);
    assert(comma_parts(s) =~= if s.len() == 0 {
        Seq::<Seq<char>>::empty()
    } else {
        seq![s]
    });
    assert(comma_parts(t) =~= comma_parts(s) + comma_parts(rest));
}

proof fn lemma_part_len(s: Seq<char>, tail: Seq<char>)
    requires
        comma_free(s),
        tail.len() > 0 ==> tail[0] == ',',
    ensures
        part_len(s + tail) == s.len(),
    decreases s.len(),
{
    let t = s + tail;
    if s.len() > 0 {
        assert(t[0] == s[0]);
        assert(t.skip(1) =~= s.skip(1) + tail);
        assert forall|i: int| 0 <= i < s.skip(1).len() implies #[trigger] s.skip(1)[i] != ',' by {
            assert(s[i + 1] != ',');
        }
        lemma_part_len(s.skip(1), tail);
    } else {
        assert(t =~= tail);
    }
}

} // verus!
