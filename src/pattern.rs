use vstd::prelude::*;

verus! {

/// Characters with a meaning of their own in the host's search syntax.
pub open spec fn is_meta(c: char) -> bool {
    c == '\\' || c == '.' || c == '+' || c == '*' || c == '?' || c == '(' || c == ')' || c
        == '|' || c == '[' || c == ']' || c == '{' || c == '}' || c == '^' || c == '$' || c
        == '#' || c == '&' || c == '-' || c == '~'
}

fn meta(c: char) -> (r: bool)
    ensures
        r == is_meta(c),
{
    c == '\\' || c == '.' || c == '+' || c == '*' || c == '?' || c == '(' || c == ')' || c
        == '|' || c == '[' || c == ']' || c == '{' || c == '}' || c == '^' || c == '$' || c
        == '#' || c == '&' || c == '-' || c == '~'
}

/// `p` written so that the search reads each of its characters literally:
/// a character with a meaning of its own gets a backslash before it.
pub open spec fn literal(p: Seq<char>) -> Seq<char>
    decreases p.len(),
{
    if p.len() == 0 {
        Seq::empty()
    } else {
        let c = p.last();
        literal(p.drop_last()) + if is_meta(c) {
            seq!['\\', c]
        } else {
            seq![c]
        }
    }
}

/// The decimal digit `d`.
pub open spec fn digit(d: nat) -> char {
    ((48 + d) as u8) as char
}

/// `n` in decimal digits, most significant first.
pub open spec fn decimal(n: nat) -> Seq<char>
    decreases n,
{
    if n < 10 {
        seq![digit(n)]
    } else {
        decimal(n / 10).push(digit(n % 10))
    }
}

/// How many characters are still to come after `p` to fill `len`.
pub open spec fn missing(p: Seq<char>, len: nat) -> nat {
    if p.len() < len {
        (len - p.len()) as nat
    } else {
        0
    }
}

/// The search key for pattern `p` when matches are `len` characters
/// long: `p` literally, then a wildcard of exactly as many characters,
/// none a line break, as `p` falls short of `len`.
pub open spec fn search_key_spec(p: Seq<char>, len: nat) -> Seq<char> {
    literal(p) + seq!['[', '^', '\n', ']', '{'] + decimal(missing(p, len)) + seq!['}']
}

fn push_decimal(out: &mut Vec<char>, n: usize)
    ensures
        final(out)@ == old(out)@ + decimal(n as nat),
    decreases n,
{
    if n >= 10 {
        push_decimal(out, n / 10);
    }
    let d: u8 = (n % 10) as u8;
    out.push((48 + d) as char);
    proof {
        assert(old(out)@ + decimal(n as nat) =~= final(out)@);
    }
}

/// Builds the search key for `pattern` with matches `len` characters long.
pub fn search_key(pattern: &Vec<char>, len: usize) -> (r: Vec<char>)
    ensures
        r@ == search_key_spec(pattern@, len as nat),
{
    let mut r: Vec<char> = Vec::new();
    let mut i: usize = 0;
    while i < pattern.len()
        invariant
            i <= pattern@.len(),
            r@ == literal(pattern@.take(i as int)),
        decreases pattern@.len() - i,
    {
        let c = pattern[i];
        assert(pattern@.take(i + 1).drop_last() =~= pattern@.take(i as int));
        if meta(c) {
            r.push('\\');
        }
        r.push(c);
        assert(r@ =~= literal(pattern@.take(i + 1)));
        i = i + 1;
    }
    assert(pattern@.take(pattern@.len() as int) =~= pattern@);
    r.push('[');
    r.push('^');
    r.push('\n');
    r.push(']');
    r.push('{');
    let k: usize = if pattern.len() < len { len - pattern.len() } else { 0 };
    push_decimal(&mut r, k);
    r.push('}');
    assert(r@ =~= search_key_spec(pattern@, len as nat));
    r
}

} // verus!
