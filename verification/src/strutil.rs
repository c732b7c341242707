//! Small string-building helpers shared by the rendering modules.

use vstd::prelude::*;

verus! {

/// Relies on String::push: appends one character at the end of the string.
#[verifier::external_body]
pub fn push_char(s: &mut String, c: char)
    ensures
        final(s)@ == old(s)@.push(c),
{
    s.push(c);
}

/// A run of `n` spaces.
pub open spec fn spaces(n: nat) -> Seq<char> {
    Seq::new(n, |i: int| ' ')
}

/// Build a string of `n` spaces.
pub fn space_string(n: usize) -> (r: String)
    ensures
        r@ == spaces(n as nat),
{
    let mut r = String::new();
    let mut i: usize = 0;
    while i < n
        invariant
            i <= n,
            r@ == spaces(i as nat),
        decreases n - i,
    {
        push_char(&mut r, ' ');
        proof {
            assert(r@ =~= spaces((i + 1) as nat));
        }
        i = i + 1;
    }
    r
}

/// Addition capped at the machine-word limit.
pub open spec fn sat_add(a: nat, b: nat) -> nat {
    if a + b <= usize::MAX as nat {
        a + b
    } else {
        usize::MAX as nat
    }
}

/// Doubling capped at the machine-word limit.
pub open spec fn sat_mul2(n: usize) -> nat {
    if 2 * n <= usize::MAX as nat {
        2 * n as nat
    } else {
        usize::MAX as nat
    }
}

/// A run of `n` copies of `c`.
pub open spec fn char_seq(c: char, n: nat) -> Seq<char> {
    Seq::new(n, |i: int| c)
}

/// Build a string of `n` copies of `c`.
pub fn repeat_char(c: char, n: usize) -> (r: String)
    ensures
        r@ == char_seq(c, n as nat),
{
    let mut r = String::new();
    let mut i: usize = 0;
    while i < n
        invariant
            i <= n,
            r@ == char_seq(c, i as nat),
        decreases n - i,
    {
        push_char(&mut r, c);
        proof {
            assert(r@ =~= char_seq(c, (i + 1) as nat));
        }
        i = i + 1;
    }
    r
}

/// The decimal digit character for `d` (only meaningful for `d < 10`).
pub open spec fn digit_char(d: nat) -> char {
    if d == 0 {
        '0'
    } else if d == 1 {
        '1'
    } else if d == 2 {
        '2'
    } else if d == 3 {
        '3'
    } else if d == 4 {
        '4'
    } else if d == 5 {
        '5'
    } else if d == 6 {
        '6'
    } else if d == 7 {
        '7'
    } else if d == 8 {
        '8'
    } else {
        '9'
    }
}

/// The usual decimal rendering of `n`, most significant digit first.
pub open spec fn decimal_digits(n: nat) -> Seq<char>
    decreases n,
{
    if n < 10 {
        seq![digit_char(n)]
    } else {
        decimal_digits(n / 10).push(digit_char(n % 10))
    }
}

fn digit_to_char(d: usize) -> (c: char)
    requires
        d < 10,
    ensures
        c == digit_char(d as nat),
{
    if d == 0 {
        '0'
    } else if d == 1 {
        '1'
    } else if d == 2 {
        '2'
    } else if d == 3 {
        '3'
    } else if d == 4 {
        '4'
    } else if d == 5 {
        '5'
    } else if d == 6 {
        '6'
    } else if d == 7 {
        '7'
    } else if d == 8 {
        '8'
    } else {
        '9'
    }
}

/// Render `n` in decimal.
pub fn usize_to_string(n: usize) -> (r: String)
    ensures
        r@ == decimal_digits(n as nat),
    decreases n,
{
    if n < 10 {
        let mut r = String::new();
        push_char(&mut r, digit_to_char(n));
        proof {
            assert(r@ =~= decimal_digits(n as nat));
        }
        r
    } else {
        let mut r = usize_to_string(n / 10);
        push_char(&mut r, digit_to_char(n % 10));
        r
    }
}

/// Exactly the characters of Unicode's White_Space set, the set that
/// `char::is_whitespace` recognises.
pub open spec fn is_space_char(c: char) -> bool {
    let u = c as u32;
    ||| u == 0x20
    ||| (0x09 <= u && u <= 0x0D)
    ||| u == 0x85
    ||| u == 0xA0
    ||| u == 0x1680
    ||| (0x2000 <= u && u <= 0x200A)
    ||| u == 0x2028
    ||| u == 0x2029
    ||| u == 0x202F
    ||| u == 0x205F
    ||| u == 0x3000
}

/// Decide whether `c` is a whitespace character.
pub fn is_space(c: char) -> (r: bool)
    ensures
        r == is_space_char(c),
{
    let u = c as u32;
    u == 0x20 || (0x09 <= u && u <= 0x0D) || u == 0x85 || u == 0xA0 || u == 0x1680 || (0x2000 <= u
        && u <= 0x200A) || u == 0x2028 || u == 0x2029 || u == 0x202F || u == 0x205F || u == 0x3000
}

/// `lines`, each followed by a newline, concatenated.
pub open spec fn lines_joined(lines: Seq<Seq<char>>) -> Seq<char>
    decreases lines.len(),
{
    if lines.len() == 0 {
        Seq::empty()
    } else {
        lines_joined(lines.drop_last()) + lines.last() + seq!['\n']
    }
}

pub proof fn lemma_lines_joined_push(lines: Seq<Seq<char>>, l: Seq<char>)
    ensures
        lines_joined(lines.push(l)) == lines_joined(lines) + l + seq!['\n'],
{
    assert(lines.push(l).drop_last() =~= lines);
}

/// Append every line of `lines`, each with a trailing newline.
pub fn append_lines(out: &mut String, lines: &Vec<String>)
    ensures
        final(out)@ == old(out)@ + lines_joined(lines.deep_view()),
{
    let ghost base = out@;
    let ghost gl = lines.deep_view();
    proof {
        assert(base + lines_joined(gl.subrange(0, 0)) =~= base);
    }
    let mut i: usize = 0;
    while i < lines.len()
        invariant
            i <= lines@.len(),
            gl == lines.deep_view(),
            gl.len() == lines@.len(),
            out@ == base + lines_joined(gl.subrange(0, i as int)),
        decreases lines@.len() - i,
    {
        let ghost pre = gl.subrange(0, i as int);
        out.append(lines[i].as_str());
        push_char(out, '\n');
        proof {
            assert(gl.subrange(0, i as int + 1) =~= pre.push(gl[i as int]));
            lemma_lines_joined_push(pre, gl[i as int]);
            assert(lines.deep_view()[i as int] == lines@[i as int]@);
            assert(out@ =~= base + lines_joined(gl.subrange(0, i as int + 1)));
        }
        i = i + 1;
    }
    proof {
        assert(gl.subrange(0, gl.len() as int) =~= gl);
    }
}

} // verus!
