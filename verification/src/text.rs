//! Strings: comparison with a literal, joining, decimal numerals, and the
//! whitespace that surrounds a token.
use vstd::prelude::*;
use vstd::string::StringExecFns;

verus! {

/// All the parts, one after the other.
pub open spec fn concat(parts: Seq<Seq<char>>) -> Seq<char>
    decreases parts.len(),
{
    if parts.len() == 0 {
        Seq::empty()
    } else {
        concat(parts.drop_last()) + parts.last()
    }
}

/// All the parts, one after the other, with `separator` between neighbours.
pub open spec fn joined(parts: Seq<Seq<char>>, separator: Seq<char>) -> Seq<char>
    decreases parts.len(),
{
    if parts.len() == 0 {
        Seq::empty()
    } else if parts.len() == 1 {
        parts[0]
    } else {
        joined(parts.drop_last(), separator) + separator + parts.last()
    }
}

/// The decimal digit `d`, which is below ten.
pub open spec fn digit_char(d: nat) -> char {
    ('0' as nat + d) as char
}

/// The decimal numeral of `n`, without leading zeros.
pub open spec fn decimal_text(n: nat) -> Seq<char>
    decreases n,
{
    if n < 10 {
        seq![digit_char(n)]
    } else {
        decimal_text(n / 10).push(digit_char(n % 10))
    }
}

/// Whether a character has the Unicode property `White_Space`.
pub open spec fn is_space(c: char) -> bool {
    let code = c as u32;
    ||| 0x9 <= code <= 0xd
    ||| code == 0x20
    ||| code == 0x85
    ||| code == 0xa0
    ||| code == 0x1680
    ||| 0x2000 <= code <= 0x200a
    ||| code == 0x2028
    ||| code == 0x2029
    ||| code == 0x202f
    ||| code == 0x205f
    ||| code == 0x3000
}

/// Whether every character is white space.
pub open spec fn all_space(text: Seq<char>) -> bool {
    forall|i: int| 0 <= i < text.len() ==> is_space(#[trigger] text[i])
}

/// Whether `text` is `token` with nothing but white space around it.
pub open spec fn is_token(text: Seq<char>, token: Seq<char>) -> bool {
    exists|before: Seq<char>, after: Seq<char>|
        #![trigger before + token + after]
        all_space(before) && all_space(after) && text == before + token + after
}

/// Whether `text` reads `word`.
pub fn same_text(text: &String, word: &str) -> (same: bool)
    ensures
        same == (text@ == word@),
{
    *text == word.to_string()
}

/// Joins `parts` with `separator` between neighbours.
pub fn join(parts: &Vec<String>, separator: &str) -> (text: String)
    ensures
        text@ == joined(parts.deep_view(), separator@),
{
    let ghost views = parts.deep_view();
    let mut text = String::new();
    let mut i: usize = 0;
    assert(views.take(0) =~= Seq::empty());
    while i < parts.len()
        invariant
            i <= parts.len(),
            views == parts.deep_view(),
            text@ == joined(views.take(i as int), separator@),
        decreases parts.len() - i,
    {
        if i > 0 {
            text.append(separator);
        }
        text.append(parts[i].as_str());
        assert(views.take(i + 1).drop_last() =~= views.take(i as int));
        assert(i == 0 ==> text@ =~= views[0]);
        i += 1;
    }
    assert(views.take(i as int) =~= views);
    text
}

/// The decimal digit `d`.
fn digit(d: u64) -> (text: &'static str)
    requires
        d < 10,
    ensures
        text@ == seq![digit_char(d as nat)],
{
    proof {
        reveal_strlit("0");
        reveal_strlit("1");
        reveal_strlit("2");
        reveal_strlit("3");
        reveal_strlit("4");
        reveal_strlit("5");
        reveal_strlit("6");
        reveal_strlit("7");
        reveal_strlit("8");
        reveal_strlit("9");
    }
    match d {
        0 => "0",
        1 => "1",
        2 => "2",
        3 => "3",
        4 => "4",
        5 => "5",
        6 => "6",
        7 => "7",
        8 => "8",
        _ => "9",
    }
}

/// The decimal numeral of `n`.
pub fn decimal(n: u64) -> (text: String)
    ensures
        text@ == decimal_text(n as nat),
    decreases n,
{
    if n < 10 {
        digit(n).to_string()
    } else {
        let mut text = decimal(n / 10);
        text.append(digit(n % 10));
        text
    }
}

/// Whether a character is white space.
pub fn space(c: char) -> (found: bool)
    ensures
        found == is_space(c),
{
    let code: u32 = c as u32;
    (0x9 <= code && code <= 0xd) || code == 0x20 || code == 0x85 || code == 0xa0 || code == 0x1680
        || (0x2000 <= code && code <= 0x200a) || code == 0x2028 || code == 0x2029 || code == 0x202f
        || code == 0x205f || code == 0x3000
}

/// The characters of `text`.
fn characters(text: &str) -> (chars: Vec<char>)
    ensures
        chars@ == text@,
{
    let mut chars: Vec<char> = Vec::new();
    for c in it: text.chars()
        invariant
            it.seq() == text@,
            chars@ == text@.take(it.index() as int),
    {
        chars.push(c);
        assert(chars@ =~= text@.take(it.index() + 1));
    }
    assert(chars@ =~= text@);
    chars
}

/// Where `text` is `before`, then `token`, then `after`, and `token` neither
/// begins nor ends with white space, the first and the last character that
/// is not white space are those of `token`.
proof fn lemma_token_bounds(
    text: Seq<char>,
    token: Seq<char>,
    before: Seq<char>,
    after: Seq<char>,
    start: int,
    end: int,
)
    requires
        token.len() > 0,
        !is_space(token.first()),
        !is_space(token.last()),
        all_space(before),
        all_space(after),
        text == before + token + after,
        0 <= start <= end <= text.len(),
        all_space(text.take(start)),
        all_space(text.skip(end)),
        start < end ==> !is_space(text[start]) && !is_space(text[end - 1]),
    ensures
        text.subrange(start, end) == token,
{
    let first = before.len() as int;
    let last = first + token.len() - 1;
    assert(text[first] == token.first());
    assert(text[last] == token.last());
    if start > first {
        assert(text.take(start)[first] == text[first]);
    }
    if end <= last {
        assert(text.skip(end)[last - end] == text[last]);
    }
    assert(start < end);
    if start < first {
        assert(before[start] == text[start]);
    }
    if end - 1 > last {
        assert(after[end - 1 - last - 1] == text[end - 1]);
    }
    assert(text.subrange(start, end) =~= token);
}

/// Whether `text` is `token` with nothing but white space around it.
pub fn holds_token(text: &str, token: &str) -> (found: bool)
    requires
        token@.len() > 0,
        !is_space(token@.first()),
        !is_space(token@.last()),
    ensures
        found == is_token(text@, token@),
{
    let chars = characters(text);
    let wanted = characters(token);
    let mut start: usize = 0;
    while start < chars.len() && space(chars[start])
        invariant
            start <= chars.len(),
            all_space(chars@.take(start as int)),
        decreases chars.len() - start,
    {
        assert(chars@.take(start + 1) =~= chars@.take(start as int).push(chars@[start as int]));
        start += 1;
    }
    let mut end: usize = chars.len();
    while start < end && space(chars[end - 1])
        invariant
            start <= end <= chars.len(),
            all_space(chars@.skip(end as int)),
        decreases end,
    {
        assert(chars@.skip(end - 1) =~= seq![chars@[end - 1]] + chars@.skip(end as int));
        end -= 1;
    }
    let mut same: bool = end - start == wanted.len();
    let mut i: usize = 0;
    while same && i < wanted.len()
        invariant
            start <= end <= chars.len(),
            same ==> end - start == wanted.len(),
            i <= wanted.len(),
            same ==> chars@.subrange(start as int, start + i) == wanted@.take(i as int),
            !same ==> chars@.subrange(start as int, end as int) != wanted@,
        decreases wanted.len() - i, if same { 1int } else { 0int },
    {
        if chars[start + i] == wanted[i] {
            assert(chars@.subrange(start as int, start + i + 1) =~= chars@.subrange(
                start as int,
                start + i,
            ).push(chars@[start + i]));
            assert(wanted@.take(i + 1) =~= wanted@.take(i as int).push(wanted@[i as int]));
            i += 1;
        } else {
            assert(chars@.subrange(start as int, end as int)[i as int] == chars@[start + i]);
            same = false;
        }
    }
    proof {
        if same {
            let before = chars@.take(start as int);
            let after = chars@.skip(end as int);
            assert(wanted@.take(i as int) =~= wanted@);
            assert(text@ =~= before + token@ + after);
        } else if is_token(text@, token@) {
            let (before, after) = choose|before: Seq<char>, after: Seq<char>|
                #![trigger before + token@ + after]
                all_space(before) && all_space(after) && text@ == before + token@ + after;
            lemma_token_bounds(text@, token@, before, after, start as int, end as int);
        }
    }
    same
}

/// Different numbers have different numerals.
pub proof fn lemma_decimal_injective(a: nat, b: nat)
    requires
        decimal_text(a) == decimal_text(b),
    ensures
        a == b,
    decreases a,
{
    let (left, right) = (decimal_text(a), decimal_text(b));
    if a < 10 && b < 10 {
        assert(left[0] == right[0]);
    } else if a < 10 {
        lemma_decimal_not_empty(b / 10);
        assert(left.len() != right.len());
    } else if b < 10 {
        lemma_decimal_not_empty(a / 10);
        assert(left.len() != right.len());
    } else {
        assert(left.last() == right.last());
        assert(left.drop_last() =~= decimal_text(a / 10));
        assert(right.drop_last() =~= decimal_text(b / 10));
        lemma_decimal_injective(a / 10, b / 10);
    }
}

proof fn lemma_decimal_not_empty(n: nat)
    ensures
        decimal_text(n).len() > 0,
{
}

} // verus!
