//! Laws of texts: joining, splitting, trimming, replacing, numbers as texts, and their order.

use vstd::prelude::*;

use crate::text;
use crate::types;

verus! {

/// What is joined of one part more.
proof fn lemma_joined_push(parts: Seq<Seq<char>>, part: Seq<char>, sep: Seq<char>)
    ensures
        text::joined(parts.push(part), sep) == if parts.len() == 0 {
            part
        } else {
            text::joined(parts, sep) + sep + part
        },
{
    let more = parts.push(part);
    if parts.len() > 0 {
        lemma_joined_upto(parts, more, sep, parts.len());
        assert(more[parts.len() as int] == part);
    }
}

proof fn lemma_joined_upto(a: Seq<Seq<char>>, b: Seq<Seq<char>>, sep: Seq<char>, n: nat)
    requires
        n <= a.len(),
        n <= b.len(),
        forall|i: int| 0 <= i < n ==> #[trigger] a[i] == b[i],
    ensures
        text::joined_upto(a, sep, n) == text::joined_upto(b, sep, n),
    decreases n,
{
    if n > 1 {
        lemma_joined_upto(a, b, sep, (n - 1) as nat);
        assert(a[n - 1] == b[n - 1]);
    } else if n == 1 {
        assert(a[0] == b[0]);
    }
}

/// Nothing is joined of nothing, one part is joined to itself, and what two lists are joined to
/// stands in what both together are joined to, one after the other with the separator between.
pub proof fn joining_puts_the_separator_between(a: Seq<Seq<char>>, b: Seq<Seq<char>>, part: Seq<char>, sep: Seq<char>)
    ensures
        text::joined(Seq::empty(), sep).len() == 0,
        text::joined(seq![part], sep) == part,
        a.len() > 0 && b.len() > 0 ==> text::joined(a + b, sep) == text::joined(a, sep) + sep + text::joined(b, sep),
    decreases b.len(),
{
    if a.len() > 0 && b.len() > 0 {
        let less = b.drop_last();
        assert(a + b =~= (a + less).push(b.last()));
        assert(b =~= less.push(b.last()));
        lemma_joined_push(a + less, b.last(), sep);
        lemma_joined_push(less, b.last(), sep);
        if less.len() > 0 {
            joining_puts_the_separator_between(a, less, part, sep);
            let x = text::joined(a, sep);
            let y = text::joined(less, sep);
            assert((x + sep + y) + sep + b.last() =~= x + sep + (y + sep + b.last()));
        } else {
            assert(a + less =~= a);
        }
    }
}

/// Each character is replaced for itself: what is made of two texts one after the other is what is
/// made of each.
pub proof fn replacing_goes_character_by_character(a: Seq<char>, b: Seq<char>, x: char, c: char, with: Seq<char>)
    ensures
        text::replaced(Seq::empty(), c, with).len() == 0,
        text::replaced(seq![x], c, with) == if x == c {
            with
        } else {
            seq![x]
        },
        text::replaced(a + b, c, with) == text::replaced(a, c, with) + text::replaced(b, c, with),
    decreases a.len(),
{
    reveal_with_fuel(text::replaced, 2);
    let one = seq![x];
    assert(one.drop_first() =~= Seq::<char>::empty());
    assert(text::replaced(one.drop_first(), c, with) =~= Seq::<char>::empty());
    assert(with + Seq::<char>::empty() =~= with);
    assert(one + Seq::<char>::empty() =~= one);
    if a.len() == 0 {
        assert(a + b =~= b);
        assert(text::replaced(a, c, with) + text::replaced(b, c, with) =~= text::replaced(b, c, with));
    } else {
        replacing_goes_character_by_character(a.drop_first(), b, x, c, with);
        assert((a + b).drop_first() =~= a.drop_first() + b);
        let y = text::replaced(a.drop_first(), c, with);
        let z = text::replaced(b, c, with);
        assert(with + (y + z) =~= (with + y) + z);
        assert(seq![a[0]] + (y + z) =~= (seq![a[0]] + y) + z);
    }
}

/// Lowercase is by character: A to Z become a to z, and all else stays.
pub proof fn ascii_letters_are_lowered(s: Seq<char>, i: int)
    requires
        0 <= i < s.len(),
    ensures
        text::ascii_lower(s).len() == s.len(),
        65 <= s[i] as int <= 90 ==> text::ascii_lower(s)[i] as int == s[i] as int + 32,
        !(65 <= s[i] as int <= 90) ==> text::ascii_lower(s)[i] == s[i],
        text::ascii_lower(text::ascii_lower(s)) == text::ascii_lower(s),
{
    let low = text::ascii_lower(s);
    assert forall|k: int| 0 <= k < s.len() implies #[trigger] text::ascii_lower(low)[k] == low[k] by {}
    assert(text::ascii_lower(low) =~= low);
}

/// A first occurrence divides a text: before it the character does not stand, and what is before
/// it, the character, and what is after it are the text.
pub proof fn a_text_is_divided_at_the_first(p: Seq<char>, rest: Seq<char>, c: char)
    requires
        !p.contains(c),
    ensures
        text::length_before(p, c) == p.len(),
        text::part_before(p, c) == p,
        text::length_before(p + seq![c] + rest, c) == p.len(),
        text::part_before(p + seq![c] + rest, c) == p,
        text::part_after(p + seq![c] + rest, c) == rest,
    decreases p.len(),
{
    let s = p + seq![c] + rest;
    if p.len() > 0 {
        let q = p.drop_first();
        assert(p[0] != c) by {
            assert(p.contains(p[0]));
        }
        assert forall|i: int| 0 <= i < q.len() implies q[i] != c by {
            assert(q[i] == p[i + 1]);
            assert(p.contains(p[i + 1]));
        }
        a_text_is_divided_at_the_first(q, rest, c);
        assert(s.drop_first() =~= q + seq![c] + rest);
        assert(s[0] == p[0]);
    }
    assert(text::part_before(p, c) =~= p);
    assert(text::part_before(s, c) =~= p);
    assert(text::part_after(s, c) =~= rest);
}

/// Splitting undoes joining: parts in which a character does not stand are got back from the text
/// that they are joined to with it.
pub proof fn splitting_undoes_joining(parts: Seq<Seq<char>>, c: char)
    requires
        parts.len() > 0,
        forall|i: int| 0 <= i < parts.len() ==> !(#[trigger] parts[i]).contains(c),
    ensures
        text::split_text(text::joined(parts, seq![c]), c) == parts,
    decreases parts.len(),
{
    let first = parts[0];
    let rest = parts.drop_first();
    joining_puts_the_separator_between(seq![first], rest, first, seq![c]);
    if rest.len() == 0 {
        assert(parts =~= seq![first]);
        a_text_is_divided_at_the_first(first, Seq::empty(), c);
    } else {
        assert(parts =~= seq![first] + rest);
        assert forall|i: int| 0 <= i < rest.len() implies !(#[trigger] rest[i]).contains(c) by {
            assert(rest[i] == parts[i + 1]);
        }
        splitting_undoes_joining(rest, c);
        a_text_is_divided_at_the_first(first, text::joined(rest, seq![c]), c);
        assert(text::split_text(text::joined(parts, seq![c]), c) =~= parts);
    }
}

/// Whether a text is nothing but white space.
pub open spec fn is_blank(s: Seq<char>) -> bool {
    forall|i: int| 0 <= i < s.len() ==> text::is_white_space(#[trigger] s[i])
}

proof fn lemma_start_trimmed(a: Seq<char>, s: Seq<char>)
    requires
        is_blank(a),
    ensures
        text::trimmed_start(a + s) == text::trimmed_start(s),
    decreases a.len(),
{
    if a.len() == 0 {
        assert(a + s =~= s);
    } else {
        assert((a + s)[0] == a[0]);
        assert((a + s).drop_first() =~= a.drop_first() + s);
        assert forall|i: int| 0 <= i < a.drop_first().len() implies text::is_white_space(
            #[trigger] a.drop_first()[i],
        ) by {
            assert(a.drop_first()[i] == a[i + 1]);
        }
        lemma_start_trimmed(a.drop_first(), s);
    }
}

proof fn lemma_end_trimmed(s: Seq<char>, b: Seq<char>)
    requires
        is_blank(b),
        s.len() > 0 ==> !text::is_white_space(s.last()),
    ensures
        text::trimmed_end(s + b) == s,
    decreases b.len(),
{
    if b.len() == 0 {
        assert(s + b =~= s);
    } else {
        assert((s + b).last() == b.last());
        assert(text::is_white_space(b[b.len() - 1]));
        assert((s + b).drop_last() =~= s + b.drop_last());
        assert forall|i: int| 0 <= i < b.drop_last().len() implies text::is_white_space(
            #[trigger] b.drop_last()[i],
        ) by {
            assert(b.drop_last()[i] == b[i]);
        }
        lemma_end_trimmed(s, b.drop_last());
    }
}

/// Trimming takes the white space from both ends of a text, all of it and nothing else.
pub proof fn trimming_takes_white_space_from_the_ends(a: Seq<char>, s: Seq<char>, b: Seq<char>)
    requires
        is_blank(a),
        is_blank(b),
        s.len() > 0 ==> !text::is_white_space(s[0]) && !text::is_white_space(s.last()),
    ensures
        text::trimmed(a + s + b) == s,
{
    assert(a + s + b =~= a + (s + b));
    lemma_start_trimmed(a, s + b);
    if s.len() > 0 {
        assert((s + b)[0] == s[0]);
        assert(text::trimmed_start(s + b) == s + b);
        lemma_end_trimmed(s, b);
    } else {
        assert(s + b =~= b + s);
        lemma_start_trimmed(b, s);
        assert(text::trimmed_start(s) =~= s);
    }
}

/// The white space characters, by their code points.
pub proof fn white_space_by_code_points(c: char)
    ensures
        text::is_white_space(c) <==> {
            let n = c as int;
            n == 9 || n == 10 || n == 11 || n == 12 || n == 13 || n == 32 || n == 133 || n == 160 || n == 5760 || 8192
                <= n < 8203 || n == 8232 || n == 8233 || n == 8239 || n == 8287 || n == 12288
        },
{
}

/// The number that decimal digits stand for.
pub open spec fn read_decimal(s: Seq<char>) -> int
    decreases s.len(),
{
    if s.len() == 0 {
        0
    } else {
        10 * read_decimal(s.drop_last()) + (s.last() as int - 48)
    }
}

/// A number is read back from its digits, of which there are no more than it takes.
pub proof fn decimal_reads_back(n: nat)
    ensures
        read_decimal(text::decimal(n)) == n,
        text::decimal(n).len() > 0,
        text::decimal(n).len() > 1 ==> text::decimal(n)[0] != '0',
        forall|i: int| 0 <= i < text::decimal(n).len() ==> '0' <= #[trigger] text::decimal(n)[i] <= '9',
    decreases n,
{
    reveal_with_fuel(read_decimal, 2);
    let s = text::decimal(n);
    if n < 10 {
        assert(s.drop_last() =~= Seq::<char>::empty());
    } else {
        decimal_reads_back(n / 10);
        let less = text::decimal(n / 10);
        assert(s.drop_last() =~= less);
        assert forall|i: int| 0 <= i < s.len() implies '0' <= #[trigger] s[i] <= '9' by {
            if i < less.len() {
                assert(s[i] == less[i]);
            }
        }
        assert(s[0] == less[0]);
        if less.len() == 1 {
            assert(less.drop_last() =~= Seq::<char>::empty());
            assert(less[0] == less.last());
        }
    }
}

/// A negative number is written as a minus and the number without it.
pub proof fn signed_numbers_read_back(i: int)
    ensures
        i >= 0 ==> read_decimal(text::signed_decimal(i)) == i && text::signed_decimal(i)[0] != '-',
        i < 0 ==> text::signed_decimal(i)[0] == '-' && read_decimal(text::signed_decimal(i).drop_first()) == -i,
{
    decimal_reads_back(if i < 0 { (-i) as nat } else { i as nat });
    if i < 0 {
        assert(text::signed_decimal(i).drop_first() =~= text::decimal((-i) as nat));
    }
}

/// The value of a hexadecimal digit.
pub open spec fn hex_value(c: char) -> int {
    if '0' <= c <= '9' {
        c as int - 48
    } else {
        c as int - 87
    }
}

/// The number that hexadecimal digits stand for.
pub open spec fn read_hex(s: Seq<char>) -> int
    decreases s.len(),
{
    if s.len() == 0 {
        0
    } else {
        16 * read_hex(s.drop_last()) + hex_value(s.last())
    }
}

/// How many numbers have so many hexadecimal digits.
pub open spec fn hex_numbers(width: nat) -> nat
    decreases width,
{
    if width == 0 {
        1
    } else {
        16 * hex_numbers((width - 1) as nat)
    }
}

/// A number is read back from its hexadecimal digits, which are lowercase and as many as asked for.
pub proof fn hex_reads_back(n: nat, width: nat)
    requires
        n < hex_numbers(width),
    ensures
        types::hex(n, width).len() == width,
        read_hex(types::hex(n, width)) == n,
        forall|i: int|
            0 <= i < width ==> '0' <= #[trigger] types::hex(n, width)[i] <= '9' || 'a' <= types::hex(n, width)[i] <= 'f',
    decreases width,
{
    if width > 0 {
        let less = types::hex(n / 16, (width - 1) as nat);
        hex_reads_back(n / 16, (width - 1) as nat);
        let s = types::hex(n, width);
        assert(s.drop_last() =~= less);
        assert(s.last() == types::hex_char(n % 16));
        assert(hex_value(types::hex_char(n % 16)) == n % 16);
        assert forall|i: int| 0 <= i < width implies '0' <= #[trigger] s[i] <= '9' || 'a' <= s[i] <= 'f' by {
            if i < width - 1 {
                assert(s[i] == less[i]);
            }
        }
    }
}

/// The order of texts is that of the first characters in which they differ, and a text comes
/// before the longer ones that it starts.
pub proof fn texts_are_ordered_by_code_points(p: Seq<char>, x: char, y: char, s: Seq<char>, t: Seq<char>)
    ensures
        x != y ==> (text::text_before(p + seq![x] + s, p + seq![y] + t) <==> (x as int) < (y as int)),
        text::text_before(p, p + seq![x] + s),
        !text::text_before(p + seq![x] + s, p),
        !text::text_before(p, p),
    decreases p.len(),
{
    let a = p + seq![x] + s;
    let b = p + seq![y] + t;
    if p.len() > 0 {
        let q = p.drop_first();
        texts_are_ordered_by_code_points(q, x, y, s, t);
        assert(a.drop_first() =~= q + seq![x] + s);
        assert(b.drop_first() =~= q + seq![y] + t);
        assert(a[0] == p[0] && b[0] == p[0]);
    }
}

/// A text has a part exactly where the part stands in it with something or nothing around it.
pub proof fn a_part_stands_in_the_text(a: Seq<char>, part: Seq<char>, b: Seq<char>)
    ensures
        text::has_part(a + part + b, part),
        text::has_part(b, part) ==> exists|i: int|
            0 <= i && i + part.len() <= b.len() && b == #[trigger] b.take(i) + part + b.skip(i + part.len()),
{
    let s = a + part + b;
    let n = a.len() as int;
    assert(s.subrange(n, n + part.len()) =~= part);
    if text::has_part(b, part) {
        let i = choose|i: int|
            0 <= i <= b.len() - part.len() && #[trigger] b.subrange(i, i + part.len()) == part;
        assert(b =~= b.take(i) + part + b.skip(i + part.len()));
    }
}

} // verus!
