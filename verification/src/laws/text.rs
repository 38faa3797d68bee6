//! Strings: what joining, numerals and trimming amount to.
use crate::text::{all_space, decimal_text, digit_char, is_space, is_token, joined};
use vstd::prelude::*;

verus! {

/// To join nothing gives nothing, and to join a single part gives the part.
pub proof fn law_one_part_is_joined_as_it_is(part: Seq<char>, separator: Seq<char>)
    ensures
        joined(Seq::empty(), separator).len() == 0,
        joined(seq![part], separator) == part,
{
}

/// Parts that are joined in two rows are joined with the separator between
/// the rows: no part is lost, and none is changed.
pub proof fn law_rows_are_joined_by_the_separator(
    left: Seq<Seq<char>>,
    right: Seq<Seq<char>>,
    separator: Seq<char>,
)
    requires
        left.len() > 0,
        right.len() > 0,
    ensures
        joined(left + right, separator) == joined(left, separator) + separator + joined(
            right,
            separator,
        ),
    decreases right.len(),
{
    let all = left + right;
    assert(all.drop_last() =~= left + right.drop_last());
    assert(all.last() == right.last());
    if right.len() == 1 {
        assert(left + right.drop_last() =~= left);
    } else {
        law_rows_are_joined_by_the_separator(left, right.drop_last(), separator);
        assert(joined(all, separator) =~= joined(left, separator) + separator + joined(
            right,
            separator,
        ));
    }
}

/// The number that decimal digits stand for.
pub open spec fn number_of(digits: Seq<char>) -> int
    decreases digits.len(),
{
    if digits.len() == 0 {
        0
    } else {
        10 * number_of(digits.drop_last()) + (digits.last() as int - '0' as int)
    }
}

/// A numeral is made of decimal digits, does not begin with a zero unless it
/// is that alone, and stands for its number.
pub proof fn law_a_numeral_stands_for_its_number(n: nat)
    ensures
        decimal_text(n).len() > 0,
        forall|i: int|
            0 <= i < decimal_text(n).len() ==> '0' <= #[trigger] decimal_text(n)[i] <= '9',
        decimal_text(n).len() > 1 ==> decimal_text(n)[0] != '0',
        number_of(decimal_text(n)) == n,
    decreases n,
{
    let text = decimal_text(n);
    assert(digit_char(n % 10) as int == '0' as int + n % 10);
    if n < 10 {
        assert(text.drop_last() =~= Seq::empty());
        assert(number_of(text.drop_last()) == 0);
    } else {
        law_a_numeral_stands_for_its_number(n / 10);
        assert(text.drop_last() =~= decimal_text(n / 10));
        assert(text[0] == decimal_text(n / 10)[0]);
        if decimal_text(n / 10).len() == 1 {
            assert(number_of(decimal_text(n / 10).drop_last()) == 0);
        }
    }
}

/// White space in front of a text or behind it does not change which token
/// it holds.
pub proof fn law_white_space_around_does_not_matter(
    text: Seq<char>,
    token: Seq<char>,
    space: char,
)
    requires
        is_space(space),
        token.len() > 0,
        !is_space(token.first()),
        !is_space(token.last()),
    ensures
        is_token(seq![space] + text, token) <==> is_token(text, token),
        is_token(text.push(space), token) <==> is_token(text, token),
{
    if is_token(text, token) {
        let (before, after) = choose|before: Seq<char>, after: Seq<char>|
            #![trigger before + token + after]
            all_space(before) && all_space(after) && text == before + token + after;
        let longer = seq![space] + before;
        assert(seq![space] + text =~= longer + token + after);
        assert(all_space(longer));
        assert(text.push(space) =~= before + token + after.push(space));
        assert(all_space(after.push(space)));
    }
    if is_token(seq![space] + text, token) {
        let whole = seq![space] + text;
        let (before, after) = choose|before: Seq<char>, after: Seq<char>|
            #![trigger before + token + after]
            all_space(before) && all_space(after) && whole == before + token + after;
        if before.len() == 0 {
            assert(whole[0] == token[0]);
        }
        let shorter = before.drop_first();
        assert forall|i: int| 0 <= i < shorter.len() implies is_space(#[trigger] shorter[i]) by {
            assert(shorter[i] == before[i + 1]);
        }
        assert(text =~= whole.drop_first());
        assert(text =~= shorter + token + after);
    }
    if is_token(text.push(space), token) {
        let whole = text.push(space);
        let (before, after) = choose|before: Seq<char>, after: Seq<char>|
            #![trigger before + token + after]
            all_space(before) && all_space(after) && whole == before + token + after;
        if after.len() == 0 {
            assert(whole.last() == token.last());
        }
        let shorter = after.drop_last();
        assert forall|i: int| 0 <= i < shorter.len() implies is_space(#[trigger] shorter[i]) by {
            assert(shorter[i] == after[i]);
        }
        assert(text =~= whole.drop_last());
        assert(text =~= before + token + shorter);
    }
}

/// A text with no white space around it holds a token only where it is the
/// token.
pub proof fn law_a_bare_text_holds_only_itself(text: Seq<char>, token: Seq<char>)
    requires
        text.len() > 0,
        !is_space(text.first()),
        !is_space(text.last()),
        token.len() > 0,
    ensures
        is_token(text, token) <==> text == token,
{
    if text == token {
        assert(text =~= Seq::empty() + token + Seq::empty());
        assert(all_space(Seq::empty()));
    }
    if is_token(text, token) {
        let (before, after) = choose|before: Seq<char>, after: Seq<char>|
            #![trigger before + token + after]
            all_space(before) && all_space(after) && text == before + token + after;
        if before.len() > 0 {
            assert(text[0] == before[0]);
        }
        if after.len() > 0 {
            assert(text.last() == after.last());
            assert(is_space(after[after.len() - 1]));
        }
        assert(text =~= token);
    }
}

/// Nothing but white space holds no token.
pub proof fn law_white_space_holds_no_token(text: Seq<char>, token: Seq<char>)
    requires
        all_space(text),
        token.len() > 0,
        !is_space(token.first()),
    ensures
        !is_token(text, token),
{
    if is_token(text, token) {
        let (before, after) = choose|before: Seq<char>, after: Seq<char>|
            #![trigger before + token + after]
            all_space(before) && all_space(after) && text == before + token + after;
        assert(text[before.len() as int] == token[0]);
    }
}

} // verus!
