//! Text as sequences of characters.
use vstd::prelude::*;
use vstd::string::*;
use vstd::utf8::*;

verus! {

/// `s` with `t` inserted before position `k`.
pub open spec fn insert_text(s: Seq<char>, k: int, t: Seq<char>) -> Seq<char> {
    s.take(k) + t + s.skip(k)
}

/// `i` is the position of the last `c` in `s`.
pub open spec fn is_last_of(s: Seq<char>, c: char, i: int) -> bool {
    &&& 0 <= i < s.len()
    &&& s[i] == c
    &&& forall|j: int| i < j < s.len() ==> s[j] != c
}

/// The position of the last `c` in `s`, or -1 where there is none.
pub open spec fn last_of(s: Seq<char>, c: char) -> int
    decreases s.len(),
{
    if s.len() == 0 {
        -1
    } else if s.last() == c {
        s.len() - 1
    } else {
        last_of(s.drop_last(), c)
    }
}

pub proof fn lemma_last_of(s: Seq<char>, c: char)
    ensures
        -1 <= last_of(s, c) < s.len(),
        last_of(s, c) >= 0 ==> is_last_of(s, c, last_of(s, c)),
        last_of(s, c) == -1 ==> !s.contains(c),
    decreases s.len(),
{
    if s.len() > 0 && s.last() != c {
        lemma_last_of(s.drop_last(), c);
        assert forall|j: int| last_of(s, c) < j < s.len() implies s[j] != c by {
            if j < s.len() - 1 {
                assert(s.drop_last()[j] == s[j]);
                assert(s.drop_last().contains(s[j]));
            }
        }
    }
}

/// The only position that can be that of the last `c`.
pub proof fn lemma_last_of_is(s: Seq<char>, c: char, i: int)
    requires
        is_last_of(s, c, i),
    ensures
        last_of(s, c) == i,
{
    lemma_last_of(s, c);
}

/// The character with an ASCII capital turned into its small letter.
pub open spec fn ascii_lower(c: char) -> char {
    if 'A' <= c && c <= 'Z' {
        (c as u8 + 32) as char
    } else {
        c
    }
}

pub open spec fn ascii_lower_text(s: Seq<char>) -> Seq<char> {
    s.map_values(|c: char| ascii_lower(c))
}

/// The decimal digit of value `d`.
pub open spec fn digit(d: nat) -> char {
    ('0' as u8 + d) as char
}

/// `n` in decimal notation, without leading zeros.
pub open spec fn decimal(n: nat) -> Seq<char>
    decreases n,
{
    if n < 10 {
        seq![digit(n)]
    } else {
        decimal(n / 10).push(digit(n % 10))
    }
}

pub proof fn lemma_decimal_ascii(n: nat)
    ensures
        is_ascii_chars(decimal(n)),
    decreases n,
{
    if n >= 10 {
        lemma_decimal_ascii(n / 10);
    }
}

/// Different numbers are written differently, and with digits only.
pub proof fn lemma_decimal_injective(m: nat, n: nat)
    ensures
        decimal(m) == decimal(n) ==> m == n,
        decimal(m).len() > 0,
        forall|i: int| 0 <= i < decimal(m).len() ==> '0' <= #[trigger] decimal(m)[i] <= '9',
    decreases m,
{
    if m >= 10 {
        lemma_decimal_injective(m / 10, n / 10);
    }
    if decimal(m) == decimal(n) {
        assert(decimal(m).last() == digit(m % 10));
        assert(decimal(n).last() == digit(n % 10));
        assert(m % 10 == n % 10);
        if m >= 10 && n >= 10 {
            assert(decimal(m).drop_last() =~= decimal(m / 10));
            assert(decimal(n).drop_last() =~= decimal(n / 10));
        } else if m >= 10 {
            assert(decimal(m / 10).len() == 0);
        } else if n >= 10 {
            assert(decimal(n).drop_last() =~= decimal(n / 10));
            lemma_decimal_nonempty(n / 10);
        }
    }
}

proof fn lemma_decimal_nonempty(n: nat)
    ensures
        decimal(n).len() > 0,
{
}

/// Different insertions at the same place give different texts.
pub proof fn lemma_insert_injective(s: Seq<char>, k: int, a: Seq<char>, b: Seq<char>)
    requires
        0 <= k <= s.len(),
        insert_text(s, k, a) == insert_text(s, k, b),
    ensures
        a == b,
{
    let x = insert_text(s, k, a);
    assert(x.len() == s.len() + a.len());
    assert(insert_text(s, k, b).len() == s.len() + b.len());
    assert(x.subrange(k, k + a.len()) =~= a);
    assert(x.subrange(k, k + b.len()) =~= b);
}

/// The characters of `s`.
pub fn text_chars(s: &str) -> (r: Vec<char>)
    ensures
        r@ == s@,
{
    let mut out: Vec<char> = Vec::new();
    for c in it: s.chars()
        invariant
            out@ == it.seq().take(it.index() as int),
            it.seq() == s@,
    {
        out.push(c);
    }
    out
}

/// Whether two texts are the same.
pub fn same_text(a: &str, b: &str) -> (r: bool)
    ensures
        r == (a@ == b@),
{
    a.to_owned() == b.to_owned()
}

/// The character with an ASCII capital turned into its small letter.
pub fn lower(c: char) -> (r: char)
    ensures
        r == ascii_lower(c),
{
    if 'A' <= c && c <= 'Z' {
        (c as u8 + 32) as char
    } else {
        c
    }
}

/// The position of the last `c` among the characters.
pub fn find_last(chars: &Vec<char>, c: char) -> (r: Option<usize>)
    ensures
        match r {
            Some(i) => i < chars@.len() && last_of(chars@, c) == i,
            None => last_of(chars@, c) == -1,
        },
{
    let mut i: usize = chars.len();
    while i > 0
        invariant
            i <= chars@.len(),
            forall|j: int| i <= j < chars@.len() ==> chars@[j] != c,
        decreases i,
    {
        i = i - 1;
        if chars[i] == c {
            proof {
                lemma_last_of_is(chars@, c, i as int);
            }
            return Some(i);
        }
    }
    proof {
        lemma_last_of(chars@, c);
    }
    None
}

/// Whether the characters from position `from` on are `word`, capitals taken as small letters.
pub fn tail_is(chars: &Vec<char>, from: usize, word: &str) -> (r: bool)
    requires
        from <= chars@.len(),
    ensures
        r == (ascii_lower_text(chars@.skip(from as int)) == word@),
{
    let w: Vec<char> = text_chars(word);
    let ghost low = ascii_lower_text(chars@.skip(from as int));
    let n: usize = chars.len();
    if n - from != w.len() {
        return false;
    }
    let mut i: usize = 0;
    while i < w.len()
        invariant
            i <= w@.len(),
            w@ == word@,
            from + w@.len() == n == chars@.len(),
            low == ascii_lower_text(chars@.skip(from as int)),
            forall|j: int| 0 <= j < i ==> low[j] == w@[j],
        decreases w@.len() - i,
    {
        assert(low[i as int] == ascii_lower(chars@[from + i]));
        if lower(chars[from + i]) != w[i] {
            return false;
        }
        i = i + 1;
    }
    assert(low =~= word@);
    true
}

/// Writes `n` in decimal notation at the end of `out`.
pub fn append_decimal(out: &mut String, n: u32)
    ensures
        final(out)@ == old(out)@ + decimal(n as nat),
    decreases n,
{
    if n >= 10 {
        append_decimal(out, n / 10);
    }
    proof {
        reveal_strlit("0");
        reveal_strlit("1");
        reveal_strlit("2");
        reveal_strlit("3");
        reveal_strlit("4");
        reveal_strlit("5");
        reveal_strlit("6");
        reveal_strlit("7");
        reveal_strlit("8");
        reveal_strlit("9");
    }
    let d: u32 = n % 10;
    let s: &str = match d {
        0 => "0",
        1 => "1",
        2 => "2",
        3 => "3",
        4 => "4",
        5 => "5",
        6 => "6",
        7 => "7",
        8 => "8",
        _ => "9",
    };
    assert(s@ =~= seq![digit(d as nat)]);
    out.append(s);
    assert(out@ =~= old(out)@ + decimal(n as nat));
}

} // verus!
