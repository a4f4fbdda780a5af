//! Character-level building blocks: decimal digits, space padding,
//! HTML escaping, and the bridge between `String` and `Vec<char>`.

use vstd::prelude::*;
use vstd::string::StrSliceExecFns;

verus! {

/// The character for one decimal digit.
pub open spec fn spec_digit(d: nat) -> char {
    if d == 0 {
        '0'
    } else if d == 1 {
        '1'
    } else if d == 2 {
        '2'
    } else if d == 3 {
        '3'
    } else if d == 4 {
        '4'
    } else if d == 5 {
        '5'
    } else if d == 6 {
        '6'
    } else if d == 7 {
        '7'
    } else if d == 8 {
        '8'
    } else {
        '9'
    }
}

/// The decimal digits of `n`, most significant first; `0` is `"0"`.
pub open spec fn dec_digits(n: nat) -> Seq<char>
    decreases n,
{
    if n < 10 {
        seq![spec_digit(n)]
    } else {
        dec_digits(n / 10).push(spec_digit(n % 10))
    }
}

/// `w` space characters.
pub open spec fn spaces(w: nat) -> Seq<char> {
    Seq::new(w, |i: int| ' ')
}

/// Left-aligned padding to width `w`: the text, then spaces up to `w`;
/// text wider than `w` is kept whole.
pub open spec fn pad_right(s: Seq<char>, w: nat) -> Seq<char> {
    if s.len() >= w {
        s
    } else {
        s + spaces((w - s.len()) as nat)
    }
}

/// Every character of a decimal rendering is a digit.
pub proof fn lemma_dec_digits_are_digits(n: nat)
    ensures
        forall|i: int|
            0 <= i < dec_digits(n).len() ==> exists|d: nat|
                d < 10 && #[trigger] dec_digits(n)[i] == spec_digit(d),
    decreases n,
{
    if n < 10 {
        assert(dec_digits(n)[0] == spec_digit(n));
    } else {
        lemma_dec_digits_are_digits(n / 10);
        let prefix = dec_digits(n / 10);
        assert forall|i: int| 0 <= i < dec_digits(n).len() implies exists|d: nat|
            d < 10 && #[trigger] dec_digits(n)[i] == spec_digit(d) by {
            if i < prefix.len() {
                assert(dec_digits(n)[i] == prefix[i]);
            } else {
                assert(dec_digits(n)[i] == spec_digit(n % 10));
                assert(n % 10 < 10);
            }
        }
    }
}

fn digit_char(d: usize) -> (c: char)
    requires
        d < 10,
    ensures
        c == spec_digit(d as nat),
{
    if d == 0 {
        '0'
    } else if d == 1 {
        '1'
    } else if d == 2 {
        '2'
    } else if d == 3 {
        '3'
    } else if d == 4 {
        '4'
    } else if d == 5 {
        '5'
    } else if d == 6 {
        '6'
    } else if d == 7 {
        '7'
    } else if d == 8 {
        '8'
    } else {
        '9'
    }
}

/// The decimal digits of `n` as characters.
pub fn digits_of(n: usize) -> (v: Vec<char>)
    ensures
        v@ == dec_digits(n as nat),
    decreases n,
{
    if n < 10 {
        let mut v: Vec<char> = Vec::new();
        v.push(digit_char(n));
        proof {
            assert(v@ =~= dec_digits(n as nat));
        }
        v
    } else {
        let mut v = digits_of(n / 10);
        v.push(digit_char(n % 10));
        v
    }
}

/// Append every character of `piece` to `out`.
pub fn push_chars(out: &mut Vec<char>, piece: &Vec<char>)
    ensures
        final(out)@ == old(out)@ + piece@,
{
    let mut i: usize = 0;
    while i < piece.len()
        invariant
            i <= piece.len(),
            out@ == old(out)@ + piece@.take(i as int),
        decreases piece.len() - i,
    {
        out.push(piece[i]);
        proof {
            assert(old(out)@ + piece@.take(i as int) + seq![piece@[i as int]] =~= old(out)@
                + piece@.take(i + 1));
        }
        i = i + 1;
    }
    proof {
        assert(piece@.take(piece@.len() as int) =~= piece@);
    }
}

/// Append `w` spaces to `out`.
pub fn push_spaces(out: &mut Vec<char>, w: usize)
    ensures
        final(out)@ == old(out)@ + spaces(w as nat),
{
    let mut j: usize = 0;
    while j < w
        invariant
            j <= w,
            out@ == old(out)@ + spaces(j as nat),
        decreases w - j,
    {
        out.push(' ');
        proof {
            assert(old(out)@ + spaces(j as nat) + seq![' '] =~= old(out)@ + spaces(
                (j + 1) as nat,
            ));
        }
        j = j + 1;
    }
}

/// Append `piece` padded to field width `w`.
pub fn push_field(out: &mut Vec<char>, piece: &Vec<char>, w: usize)
    ensures
        final(out)@ == old(out)@ + pad_right(piece@, w as nat),
{
    push_chars(out, piece);
    if piece.len() < w {
        push_spaces(out, w - piece.len());
        proof {
            assert(old(out)@ + piece@ + spaces((w - piece@.len()) as nat) =~= old(out)@
                + pad_right(piece@, w as nat));
        }
    }
}

/// The characters of a string slice.
pub fn chars_of(s: &str) -> (v: Vec<char>)
    ensures
        v@ == s@,
{
    let n = s.unicode_len();
    let mut v: Vec<char> = Vec::new();
    let mut i: usize = 0;
    while i < n
        invariant
            n == s@.len(),
            i <= n,
            v@ == s@.take(i as int),
        decreases n - i,
    {
        v.push(s.get_char(i));
        proof {
            assert(s@.take(i as int).push(s@[i as int]) =~= s@.take(i + 1));
        }
        i = i + 1;
    }
    proof {
        assert(s@.take(n as int) =~= s@);
    }
    v
}

/// Relies on `String`'s `FromIterator<char>`: collecting characters
/// yields the string of exactly those characters, in order.
#[verifier::external_body]
pub(crate) fn string_of(cs: &Vec<char>) -> (r: String)
    ensures
        r@ == cs@,
{
    cs.iter().collect()
}

/// What one character becomes in HTML output: `<` and `>` are turned
/// into numeric character references, all else stays itself.
pub open spec fn spec_escape_char(c: char) -> Seq<char> {
    if c == '<' {
        seq!['&', '#', '6', '0', ';']
    } else if c == '>' {
        seq!['&', '#', '6', '2', ';']
    } else {
        seq![c]
    }
}

/// HTML-escaped text: each character replaced by `spec_escape_char`.
pub open spec fn spec_escape(s: Seq<char>) -> Seq<char>
    decreases s.len(),
{
    if s.len() == 0 {
        Seq::empty()
    } else {
        spec_escape_char(s[0]) + spec_escape(s.drop_first())
    }
}

/// Escaping one more trailing character extends the escaped text.
pub proof fn lemma_escape_push(s: Seq<char>, c: char)
    ensures
        spec_escape(s.push(c)) == spec_escape(s) + spec_escape_char(c),
    decreases s.len(),
{
    if s.len() == 0 {
        assert(s.push(c).drop_first() =~= Seq::<char>::empty());
        assert(s.push(c)[0] == c);
        assert(spec_escape(Seq::<char>::empty()) == Seq::<char>::empty());
        assert(spec_escape(s.push(c)) == spec_escape_char(c) + Seq::<char>::empty());
        assert(spec_escape(s.push(c)) =~= spec_escape(s) + spec_escape_char(c));
    } else {
        assert(s.push(c).drop_first() =~= s.drop_first().push(c));
        assert(s.push(c)[0] == s[0]);
        lemma_escape_push(s.drop_first(), c);
        assert(spec_escape(s.push(c)) == spec_escape_char(s[0]) + (spec_escape(s.drop_first())
            + spec_escape_char(c)));
        assert(spec_escape_char(s[0]) + (spec_escape(s.drop_first()) + spec_escape_char(c)) =~= (
        spec_escape_char(s[0]) + spec_escape(s.drop_first())) + spec_escape_char(c));
    }
}

/// Escaped text never contains a literal `<` or `>`, whatever the input.
pub proof fn lemma_escape_no_angle(s: Seq<char>)
    ensures
        forall|i: int|
            0 <= i < spec_escape(s).len() ==> spec_escape(s)[i] != '<' && spec_escape(s)[i] != '>',
    decreases s.len(),
{
    if s.len() > 0 {
        lemma_escape_no_angle(s.drop_first());
        let head = spec_escape_char(s[0]);
        let rest = spec_escape(s.drop_first());
        assert forall|i: int| 0 <= i < spec_escape(s).len() implies spec_escape(s)[i] != '<'
            && spec_escape(s)[i] != '>' by {
            if i < head.len() {
                assert(spec_escape(s)[i] == head[i]);
                if s[0] == '<' {
                    assert(head[i] != '<' && head[i] != '>');
                } else if s[0] == '>' {
                    assert(head[i] != '<' && head[i] != '>');
                } else {
                    assert(head[i] == s[0]);
                }
            } else {
                assert(spec_escape(s)[i] == rest[i - head.len()]);
            }
        }
    }
}

/// Append the HTML escaping of `content` to `out`.
pub fn push_escaped(out: &mut Vec<char>, content: &Vec<char>)
    ensures
        final(out)@ == old(out)@ + spec_escape(content@),
{
    let mut i: usize = 0;
    while i < content.len()
        invariant
            i <= content.len(),
            out@ == old(out)@ + spec_escape(content@.take(i as int)),
        decreases content.len() - i,
    {
        let c = content[i];
        if c == '<' {
            out.push('&');
            out.push('#');
            out.push('6');
            out.push('0');
            out.push(';');
        } else if c == '>' {
            out.push('&');
            out.push('#');
            out.push('6');
            out.push('2');
            out.push(';');
        } else {
            out.push(c);
        }
        proof {
            assert(content@.take(i + 1) =~= content@.take(i as int).push(content@[i as int]));
            lemma_escape_push(content@.take(i as int), content@[i as int]);
            assert(out@ =~= old(out)@ + spec_escape(content@.take(i + 1)));
        }
        i = i + 1;
    }
    proof {
        assert(content@.take(content@.len() as int) =~= content@);
    }
}

} // verus!
