//! What text operations and the password page are owed.

use crate::template;
use crate::template::TemplateText;
use crate::text;
use vstd::prelude::*;

verus! {

/// Whether `s` is white space throughout.
pub open spec fn is_blank(s: Seq<char>) -> bool {
    forall|i: int| 0 <= i < s.len() ==> text::is_white_space(#[trigger] s[i])
}

/// Trimming cuts white space off both ends, all of it, and nothing else.
pub proof fn lemma_trimming(s: Seq<char>)
    ensures
        text::is_trimmed(text::trimmed(s)),
        exists|before: Seq<char>, after: Seq<char>|
            #![trigger before + text::trimmed(s) + after]
            is_blank(before) && is_blank(after) && before + text::trimmed(s) + after == s,
{
    text::lemma_trimmed(s);
    let before = lemma_cut_at_start(s);
    let after = lemma_cut_at_end(text::trim_start(s));
    assert(before + text::trimmed(s) + after =~= before + (text::trimmed(s) + after));
}

proof fn lemma_cut_at_start(s: Seq<char>) -> (before: Seq<char>)
    ensures
        is_blank(before),
        before + text::trim_start(s) == s,
    decreases s.len(),
{
    if s.len() > 0 && text::is_white_space(s.first()) {
        let rest = lemma_cut_at_start(s.drop_first());
        let before = seq![s.first()] + rest;
        assert(before + text::trim_start(s) =~= seq![s.first()] + (rest + text::trim_start(s)));
        assert(seq![s.first()] + s.drop_first() =~= s);
        before
    } else {
        assert(Seq::<char>::empty() + s =~= s);
        Seq::empty()
    }
}

proof fn lemma_cut_at_end(s: Seq<char>) -> (after: Seq<char>)
    ensures
        is_blank(after),
        text::trim_end(s) + after == s,
    decreases s.len(),
{
    if s.len() > 0 && text::is_white_space(s.last()) {
        let rest = lemma_cut_at_end(s.drop_last());
        assert(text::trim_end(s) + rest.push(s.last()) =~= (text::trim_end(s) + rest).push(
            s.last(),
        ));
        assert(s.drop_last().push(s.last()) =~= s);
        rest.push(s.last())
    } else {
        assert(s + Seq::<char>::empty() =~= s);
        Seq::empty()
    }
}

/// Which characters are white space.
pub proof fn lemma_white_space(c: char)
    ensures
        text::is_white_space(c) <==> {
            ||| c == '\t' || c == '\n' || c == '\u{b}' || c == '\u{c}' || c == '\r' || c == ' '
            ||| c == '\u{85}' || c == '\u{a0}' || c == '\u{1680}'
            ||| '\u{2000}' <= c <= '\u{200a}'
            ||| c == '\u{2028}' || c == '\u{2029}' || c == '\u{202f}' || c == '\u{205f}'
            ||| c == '\u{3000}'
        },
{
}

/// A split takes a text apart at the separators and loses nothing: no piece
/// holds one, and joined by them again the pieces are the text.
pub proof fn lemma_splitting(s: Seq<char>, separator: char)
    ensures
        text::split(s, separator).len() > 0,
        forall|i: int|
            0 <= i < text::split(s, separator).len() ==> !(#[trigger] text::split(
                s,
                separator,
            )[i]).contains(separator),
        text::join(text::split(s, separator), seq![separator]) == s,
    decreases s.len(),
{
    text::lemma_split_pieces(s, separator);
    let between = seq![separator];
    if s.len() == 0 {
        assert(text::join(text::split(s, separator), between) =~= s);
    } else {
        let front = text::split(s.drop_last(), separator);
        let all = text::split(s, separator);
        text::lemma_split_pieces(s.drop_last(), separator);
        lemma_splitting(s.drop_last(), separator);
        if s.last() == separator {
            assert(all.drop_last() =~= front);
            assert(text::join(all, between) =~= text::join(front, between) + between);
        } else {
            assert(all.drop_last() =~= front.drop_last());
            assert(text::join(all, between) =~= text::join(front, between).push(s.last()));
        }
        assert(s.drop_last().push(s.last()) =~= s);
    }
}

/// A text is cut at the first separator, and only if it holds one.
pub proof fn lemma_cutting<A>(s: Seq<A>, separator: A)
    ensures
        match text::cut(s, separator) {
            Some((before, after)) => !before.contains(separator) && before.push(separator) + after
                == s,
            None => !s.contains(separator),
        },
    decreases s.len(),
{
    if s.len() > 0 && s.first() != separator {
        lemma_cutting(s.drop_first(), separator);
        match text::cut(s.drop_first(), separator) {
            Some((before, after)) => {
                let longer = seq![s.first()] + before;
                assert forall|i: int| 0 <= i < longer.len() implies longer[i] != separator by {
                    if i > 0 {
                        assert(before.contains(before[i - 1]));
                    }
                }
                assert(longer.push(separator) + after =~= seq![s.first()] + (before.push(separator)
                    + after));
                assert(seq![s.first()] + s.drop_first() =~= s);
            },
            None => {
                assert forall|i: int| 0 <= i < s.len() implies s[i] != separator by {
                    if i > 0 {
                        assert(s.drop_first().contains(s.drop_first()[i - 1]));
                    }
                }
            },
        }
    } else if s.len() > 0 {
        assert(Seq::<A>::empty().push(separator) + s.drop_first() =~= s);
    }
}

/// Parts are joined in order, with the separator between neighbours.
pub proof fn lemma_joining(parts: Seq<Seq<char>>, part: Seq<char>, separator: Seq<char>)
    ensures
        text::join(Seq::empty(), separator) == Seq::<char>::empty(),
        text::join(seq![part], separator) == part,
        parts.len() > 0 ==> text::join(parts.push(part), separator) == text::join(parts, separator)
            + separator + part,
{
    assert(parts.push(part).drop_last() =~= parts);
}

/// The number that decimal digits spell.
pub open spec fn spelled(digits: Seq<char>) -> int
    decreases digits.len(),
{
    if digits.len() == 0 {
        0
    } else {
        10 * spelled(digits.drop_last()) + (digits.last() as int - '0' as int)
    }
}

/// A number's decimal text is made of digits, spells the number, and has no
/// leading zero unless it is `0`.
pub proof fn lemma_decimal_spells_the_number(n: nat)
    ensures
        spelled(text::decimal(n)) == n,
        text::decimal(n).len() > 0,
        forall|i: int|
            0 <= i < text::decimal(n).len() ==> '0' <= #[trigger] text::decimal(n)[i] <= '9',
        n > 0 ==> text::decimal(n)[0] != '0',
        n == 0 ==> text::decimal(n).len() == 1,
    decreases n,
{
    reveal_strlit("0123456789");
    let all = text::decimal(n);
    let digit = "0123456789"@[(n % 10) as int];
    assert(digit as int == '0' as int + n % 10);
    if n >= 10 {
        lemma_decimal_spells_the_number(n / 10);
        let front = text::decimal(n / 10);
        assert(all.drop_last() =~= front);
        assert(10 * (n / 10) + n % 10 == n);
        assert(all[0] == front[0]);
    } else {
        assert(all.drop_last() =~= Seq::empty());
        assert(spelled(all.drop_last()) == 0);
    }
}

/// How each character is escaped.
pub proof fn lemma_escaping(s: Seq<char>, c: char)
    ensures
        template::escaped(Seq::empty()) == Seq::<char>::empty(),
        c == '&' ==> template::escaped(s.push(c)) == template::escaped(s) + "&amp;"@,
        c == '<' ==> template::escaped(s.push(c)) == template::escaped(s) + "&lt;"@,
        c == '>' ==> template::escaped(s.push(c)) == template::escaped(s) + "&gt;"@,
        c == '"' ==> template::escaped(s.push(c)) == template::escaped(s) + "&quot;"@,
        c == '\'' ==> template::escaped(s.push(c)) == template::escaped(s) + "&#39;"@,
        c != '&' && c != '<' && c != '>' && c != '"' && c != '\'' ==> template::escaped(s.push(c))
            == template::escaped(s).push(c),
{
    assert(s.push(c).drop_last() =~= s);
    assert(template::escaped(s) + seq![c] =~= template::escaped(s).push(c));
}

/// A text that needs no escaping stays as it is.
pub proof fn lemma_plain_text_is_not_escaped(s: Seq<char>)
    requires
        forall|i: int|
            0 <= i < s.len() ==> #[trigger] s[i] != '&' && s[i] != '<' && s[i] != '>' && s[i] != '"'
                && s[i] != '\'',
    ensures
        template::escaped(s) == s,
    decreases s.len(),
{
    if s.len() == 0 {
        assert(s =~= Seq::empty());
    } else {
        lemma_plain_text_is_not_escaped(s.drop_last());
        lemma_escaping(s.drop_last(), s.last());
        assert(s.drop_last().push(s.last()) =~= s);
    }
}

/// Each marker stands for its text, and the failed-login ones for nothing
/// unless a login has failed. What stands before a marker without a brace, and
/// what is behind it, is the page on its own.
pub proof fn lemma_markers(
    before: Seq<char>,
    after: Seq<char>,
    text: template::PageText,
    wrong: bool,
)
    requires
        !before.contains('{'),
    ensures
        ({
            let rest = template::page(after, text, wrong);
            &&& template::page(before + "{{PAGE_LANGUAGE}}"@ + after, text, wrong) == before
                + template::escaped(text.page_language) + rest
            &&& template::page(before + "{{PAGE_TITLE}}"@ + after, text, wrong) == before
                + template::escaped(text.page_title) + rest
            &&& template::page(before + "{{PASSWORD_LABEL}}"@ + after, text, wrong) == before
                + template::escaped(text.password_label) + rest
            &&& template::page(before + "{{PASSWORD_PLACEHOLDER}}"@ + after, text, wrong) == before
                + template::escaped(text.password_placeholder) + rest
            &&& template::page(before + "{{SUBMIT_BUTTON_TEXT}}"@ + after, text, wrong) == before
                + template::escaped(text.submit_button_text) + rest
            &&& template::page(before + "{{IS_PASSWORD_INVALID}}"@ + after, text, wrong) == before
                + (if wrong {
                "true"@
            } else {
                "false"@
            }) + rest
            &&& template::page(before + "{{PASSWORD_AUTOFOCUS}}"@ + after, text, wrong) == if wrong {
                before + "autofocus"@ + rest
            } else {
                before + rest
            }
            &&& template::page(before + "{{WRONG_PASSWORD_MESSAGE}}"@ + after, text, wrong)
                == if wrong {
                before + template::escaped(text.wrong_password_message) + rest
            } else {
                before + rest
            }
        }),
{
    template::lemma_marker_is_replaced_once(before, 0, after, text, wrong);
    template::lemma_marker_is_replaced_once(before, 1, after, text, wrong);
    template::lemma_marker_is_replaced_once(before, 2, after, text, wrong);
    template::lemma_marker_is_replaced_once(before, 3, after, text, wrong);
    template::lemma_marker_is_replaced_once(before, 4, after, text, wrong);
    template::lemma_marker_is_replaced_once(before, 5, after, text, wrong);
    template::lemma_marker_is_replaced_once(before, 6, after, text, wrong);
    template::lemma_marker_is_replaced_once(before, 7, after, text, wrong);
    reveal_strlit("true");
    reveal_strlit("false");
    reveal_strlit("autofocus");
    lemma_plain_text_is_not_escaped("true"@);
    lemma_plain_text_is_not_escaped("false"@);
    lemma_plain_text_is_not_escaped("autofocus"@);
    assert(before + Seq::<char>::empty() =~= before);
}

/// Whether `t` starts with one of the markers.
pub open spec fn starts_with_known_marker(t: Seq<char>) -> bool {
    ||| "{{PAGE_LANGUAGE}}"@.is_prefix_of(t)
    ||| "{{PAGE_TITLE}}"@.is_prefix_of(t)
    ||| "{{PASSWORD_LABEL}}"@.is_prefix_of(t)
    ||| "{{PASSWORD_PLACEHOLDER}}"@.is_prefix_of(t)
    ||| "{{IS_PASSWORD_INVALID}}"@.is_prefix_of(t)
    ||| "{{PASSWORD_AUTOFOCUS}}"@.is_prefix_of(t)
    ||| "{{WRONG_PASSWORD_MESSAGE}}"@.is_prefix_of(t)
    ||| "{{SUBMIT_BUTTON_TEXT}}"@.is_prefix_of(t)
}

/// Everything but the markers stays, character by character: also a brace alone,
/// and two braces that open no marker.
pub proof fn lemma_everything_else_stays(
    c: char,
    rest: Seq<char>,
    text: template::PageText,
    wrong: bool,
)
    ensures
        template::page(Seq::empty(), text, wrong) == Seq::<char>::empty(),
        !(c == '{' && rest.len() > 0 && rest[0] == '{') ==> template::page(
            seq![c] + rest,
            text,
            wrong,
        ) == seq![c] + template::page(rest, text, wrong),
        !starts_with_known_marker(seq!['{', '{'] + rest) ==> template::page(
            seq!['{', '{'] + rest,
            text,
            wrong,
        ) == seq!['{', '{'] + template::page(rest, text, wrong),
{
    let one = seq![c] + rest;
    assert(one.skip(1) =~= rest);
    let two = seq!['{', '{'] + rest;
    assert(two.skip(2) =~= rest);
    if !starts_with_known_marker(two) {
        lemma_no_marker_is_found(two, text, wrong);
    }
}

proof fn lemma_no_marker_is_found(t: Seq<char>, text: template::PageText, wrong: bool)
    requires
        !starts_with_known_marker(t),
    ensures
        template::find_marker(t, template::page_markers(text, wrong)) is None,
{
    let markers = template::page_markers(text, wrong);
    assert forall|i: int| 0 <= i < 8 implies !template::starts_with_marker(
        t,
        (#[trigger] markers[i]).0,
    ) by {
        let marker = markers[i].0;
        if template::starts_with_marker(t, marker) {
            assert(t.take(marker.len() as int) =~= t.subrange(0, marker.len() as int));
            assert(marker.is_prefix_of(t));
        }
    }
    lemma_none_of(t, markers);
}

proof fn lemma_none_of(t: Seq<char>, markers: Seq<(Seq<char>, Seq<char>)>)
    requires
        forall|i: int|
            0 <= i < markers.len() ==> !template::starts_with_marker(t, (#[trigger] markers[i]).0),
    ensures
        template::find_marker(t, markers) is None,
    decreases markers.len(),
{
    if markers.len() > 0 {
        assert(!template::starts_with_marker(t, markers[0].0));
        let rest = markers.drop_first();
        assert forall|i: int| 0 <= i < rest.len() implies !template::starts_with_marker(
            t,
            (#[trigger] rest[i]).0,
        ) by {
            assert(rest[i] == markers[i + 1]);
        }
        lemma_none_of(t, rest);
    }
}

/// The texts of a page that nothing overrides, and what a `TemplateText` is
/// taken for: its texts.
pub proof fn lemma_page_texts(text: TemplateText)
    ensures
        template::default_page_text().page_language == "en"@,
        template::default_page_text().page_title == "Welcome!"@,
        template::default_page_text().password_label == "Password"@,
        template::default_page_text().password_placeholder == "password"@,
        template::default_page_text().wrong_password_message == "Wrong password."@,
        template::default_page_text().submit_button_text == "Enter"@,
        text@.page_language == text.page_language@,
        text@.page_title == text.page_title@,
        text@.password_label == text.password_label@,
        text@.password_placeholder == text.password_placeholder@,
        text@.wrong_password_message == text.wrong_password_message@,
        text@.submit_button_text == text.submit_button_text@,
{
}

} // verus!
