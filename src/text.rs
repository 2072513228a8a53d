use vstd::prelude::*;

verus! {

/// Relies on String::push: appends one character.
#[verifier::external_body]
fn push_char(s: &mut String, c: char)
    ensures
        final(s)@ == old(s)@.push(c),
{
    s.push(c)
}

pub open spec fn digit_char(d: nat) -> char {
    if d == 0 {
        '0'
    } else if d == 1 {
        '1'
    } else if d == 2 {
        '2'
    } else if d == 3 {
        '3'
    } else if d == 4 {
        '4'
    } else if d == 5 {
        '5'
    } else if d == 6 {
        '6'
    } else if d == 7 {
        '7'
    } else if d == 8 {
        '8'
    } else {
        '9'
    }
}

/// The decimal digits of `n`, most significant first.
pub open spec fn decimal(n: nat) -> Seq<char>
    decreases n,
{
    if n < 10 {
        seq![digit_char(n)]
    } else {
        decimal(n / 10).push(digit_char(n % 10))
    }
}

fn digit(d: u64) -> (c: char)
    requires
        d < 10,
    ensures
        c == digit_char(d as nat),
{
    if d == 0 {
        '0'
    } else if d == 1 {
        '1'
    } else if d == 2 {
        '2'
    } else if d == 3 {
        '3'
    } else if d == 4 {
        '4'
    } else if d == 5 {
        '5'
    } else if d == 6 {
        '6'
    } else if d == 7 {
        '7'
    } else if d == 8 {
        '8'
    } else {
        '9'
    }
}

/// Appends the decimal digits of `n`.
pub fn push_decimal(out: &mut String, n: u64)
    ensures
        final(out)@ == old(out)@ + decimal(n as nat),
    decreases n,
{
    if n >= 10 {
        push_decimal(out, n / 10);
    }
    push_char(out, digit(n % 10));
    assert(final(out)@ =~= old(out)@ + decimal(n as nat));
}

/// The decimal text of `n`.
pub fn decimal_string(n: u64) -> (r: String)
    ensures
        r@ == decimal(n as nat),
{
    let mut s = String::new();
    push_decimal(&mut s, n);
    assert(s@ =~= decimal(n as nat));
    s
}

/// A display name made safe to stand inside diagram markup: quotes become
/// apostrophes, and line breaks, colons and semicolons become spaces.
pub open spec fn clean_char(c: char) -> char {
    if c == '"' {
        '\''
    } else if c == '\n' || c == '\r' || c == ':' || c == ';' {
        ' '
    } else {
        c
    }
}

pub open spec fn label(s: Seq<char>) -> Seq<char> {
    s.map_values(|c: char| clean_char(c))
}

/// Appends `label(name@)`.
pub fn push_label(out: &mut String, name: &str)
    ensures
        final(out)@ == old(out)@ + label(name@),
{
    let n = name.unicode_len();
    let ghost start = out@;
    let mut i: usize = 0;
    while i < n
        invariant
            n == name@.len(),
            i <= n,
            out@ == start + label(name@.subrange(0, i as int)),
        decreases n - i,
    {
        let c = name.get_char(i);
        let d = if c == '"' {
            '\''
        } else if c == '\n' || c == '\r' || c == ':' || c == ';' {
            ' '
        } else {
            c
        };
        push_char(out, d);
        i = i + 1;
        assert(out@ =~= start + label(name@.subrange(0, i as int)));
    }
    assert(name@.subrange(0, n as int) =~= name@);
}

/// Lines joined, each one followed by a line break.
pub open spec fn lines_text(ls: Seq<Seq<char>>) -> Seq<char>
    decreases ls.len(),
{
    if ls.len() == 0 {
        Seq::empty()
    } else {
        lines_text(ls.drop_last()) + ls.last() + seq!['\n']
    }
}

/// Appends a line and its line break.
pub(crate) fn push_line(out: &mut String, line: &String, ghost_lines: Ghost<Seq<Seq<char>>>)
    requires
        old(out)@ == lines_text(ghost_lines@),
    ensures
        final(out)@ == lines_text(ghost_lines@.push(line@)),
{
    out.append(line.as_str());
    push_char(out, '\n');
    assert(ghost_lines@.push(line@).drop_last() =~= ghost_lines@);
    assert(final(out)@ =~= lines_text(ghost_lines@.push(line@)));
}

} // verus!
