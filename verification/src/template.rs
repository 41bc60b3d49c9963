//! The password page: its texts, and how they are put into a template.

use crate::text;
use vstd::prelude::*;

verus! {

/// Text substituted into the password-page template.
pub struct TemplateText {
    pub page_language: String,
    pub page_title: String,
    pub password_label: String,
    pub password_placeholder: String,
    pub wrong_password_message: String,
    pub submit_button_text: String,
}

/// The characters of a `TemplateText`.
pub struct PageText {
    pub page_language: Seq<char>,
    pub page_title: Seq<char>,
    pub password_label: Seq<char>,
    pub password_placeholder: Seq<char>,
    pub wrong_password_message: Seq<char>,
    pub submit_button_text: Seq<char>,
}

impl View for TemplateText {
    type V = PageText;

    open spec fn view(&self) -> PageText {
        PageText {
            page_language: self.page_language@,
            page_title: self.page_title@,
            password_label: self.password_label@,
            password_placeholder: self.password_placeholder@,
            wrong_password_message: self.wrong_password_message@,
            submit_button_text: self.submit_button_text@,
        }
    }
}

/// The texts of a page that nothing overrides.
pub open spec fn default_page_text() -> PageText {
    PageText {
        page_language: "en"@,
        page_title: "Welcome!"@,
        password_label: "Password"@,
        password_placeholder: "password"@,
        wrong_password_message: "Wrong password."@,
        submit_button_text: "Enter"@,
    }
}

impl Default for TemplateText {
    fn default() -> (text: Self)
        ensures
            text@ == default_page_text(),
    {
        TemplateText {
            page_language: "en".to_owned(),
            page_title: "Welcome!".to_owned(),
            password_label: "Password".to_owned(),
            password_placeholder: "password".to_owned(),
            wrong_password_message: "Wrong password.".to_owned(),
            submit_button_text: "Enter".to_owned(),
        }
    }
}

/// A character as it stands in HTML text and in double-quoted attributes.
pub open spec fn escaped_char(c: char) -> Seq<char> {
    if c == '&' {
        "&amp;"@
    } else if c == '<' {
        "&lt;"@
    } else if c == '>' {
        "&gt;"@
    } else if c == '"' {
        "&quot;"@
    } else if c == '\'' {
        "&#39;"@
    } else {
        seq![c]
    }
}

/// A text as it stands in HTML: each character escaped.
pub open spec fn escaped(s: Seq<char>) -> Seq<char>
    decreases s.len(),
{
    if s.len() == 0 {
        Seq::empty()
    } else {
        escaped(s.drop_last()) + escaped_char(s.last())
    }
}

/// The markers that a template may hold, each with the text that stands for
/// it. The failed-login texts are empty unless a login has failed.
pub open spec fn page_markers(text: PageText, wrong_password: bool) -> Seq<
    (Seq<char>, Seq<char>),
> {
    seq![
        ("{{PAGE_LANGUAGE}}"@, text.page_language),
        ("{{PAGE_TITLE}}"@, text.page_title),
        ("{{PASSWORD_LABEL}}"@, text.password_label),
        ("{{PASSWORD_PLACEHOLDER}}"@, text.password_placeholder),
        (
            "{{IS_PASSWORD_INVALID}}"@,
            if wrong_password {
                "true"@
            } else {
                "false"@
            },
        ),
        (
            "{{PASSWORD_AUTOFOCUS}}"@,
            if wrong_password {
                "autofocus"@
            } else {
                Seq::empty()
            },
        ),
        (
            "{{WRONG_PASSWORD_MESSAGE}}"@,
            if wrong_password {
                text.wrong_password_message
            } else {
                Seq::empty()
            },
        ),
        ("{{SUBMIT_BUTTON_TEXT}}"@, text.submit_button_text),
    ]
}

/// Whether `t` starts with the (non-empty) marker.
pub open spec fn starts_with_marker(t: Seq<char>, marker: Seq<char>) -> bool {
    0 < marker.len() <= t.len() && t.take(marker.len() as int) == marker
}

/// The first of the markers that `t` starts with, and the text for it.
pub open spec fn find_marker(t: Seq<char>, markers: Seq<(Seq<char>, Seq<char>)>) -> Option<
    (Seq<char>, Seq<char>),
>
    decreases markers.len(),
{
    if markers.len() == 0 {
        None
    } else if starts_with_marker(t, markers[0].0) {
        Some(markers[0])
    } else {
        find_marker(t, markers.drop_first())
    }
}

/// Whether `t` starts with two opening braces.
pub open spec fn opens_marker(t: Seq<char>) -> bool {
    t.len() >= 2 && t[0] == '{' && t[1] == '{'
}

/// The template with each marker replaced by its escaped text, read from left
/// to right: a replacement is not read again, and braces that open no marker
/// stay.
pub open spec fn rendered(t: Seq<char>, markers: Seq<(Seq<char>, Seq<char>)>) -> Seq<char>
    decreases t.len(),
{
    if t.len() == 0 {
        Seq::empty()
    } else if opens_marker(t) {
        proof {
            lemma_find_marker(t, markers);
        }
        match find_marker(t, markers) {
            Some((marker, value)) => escaped(value) + rendered(
                t.skip(marker.len() as int),
                markers,
            ),
            None => seq!['{', '{'] + rendered(t.skip(2), markers),
        }
    } else {
        seq![t[0]] + rendered(t.skip(1), markers)
    }
}

/// A marker that was found is not empty, and no longer than the text.
pub proof fn lemma_find_marker(t: Seq<char>, markers: Seq<(Seq<char>, Seq<char>)>)
    ensures
        find_marker(t, markers) matches Some((marker, _)) ==> 0 < marker.len() <= t.len(),
    decreases markers.len(),
{
    if markers.len() > 0 {
        lemma_find_marker(t, markers.drop_first());
    }
}

/// The password page for a login state.
pub open spec fn page(template: Seq<char>, text: PageText, wrong_password: bool) -> Seq<char> {
    rendered(template, page_markers(text, wrong_password))
}

/// Append plain text escaped for HTML text and double-quoted attributes.
pub fn push_html_escaped(rendered: &mut String, value: &str)
    ensures
        final(rendered)@ == old(rendered)@ + escaped(value@),
{
    let ghost before = rendered@;
    assert(before + escaped(value@.take(0)) =~= before);
    for character in iter: value.chars()
        invariant
            iter.seq() == value@,
            rendered@ == before + escaped(value@.take(iter.index() as int)),
    {
        proof {
            let n = iter.index() as int;
            assert(value@.take(n + 1).drop_last() =~= value@.take(n));
        }
        let ghost earlier = rendered@;
        match character {
            '&' => rendered.append("&amp;"),
            '<' => rendered.append("&lt;"),
            '>' => rendered.append("&gt;"),
            '"' => rendered.append("&quot;"),
            '\'' => rendered.append("&#39;"),
            _ => rendered.push(character),
        }
        assert(rendered@ =~= earlier + escaped_char(character));
        assert(rendered@ =~= before + escaped(value@.take(iter.index() + 1)));
    }
    assert(value@.take(value@.len() as int) =~= value@);
}

/// Whether the characters from `start` on begin with the marker.
fn marker_at(chars: &Vec<char>, start: usize, marker: &str) -> (r: bool)
    requires
        start <= chars@.len(),
    ensures
        r == starts_with_marker(chars@.skip(start as int), marker@),
{
    let ghost rest = chars@.skip(start as int);
    let wanted = text::char_vec(marker);
    let left: usize = chars.len() - start;
    if wanted.len() == 0 || wanted.len() > left {
        return false;
    }
    let mut i: usize = 0;
    while i < wanted.len()
        invariant
            i <= wanted@.len() <= left,
            start + left == chars@.len(),
            start + left <= usize::MAX,
            wanted@ == marker@,
            rest == chars@.skip(start as int),
            forall|j: int| 0 <= j < i ==> rest[j] == wanted@[j],
        decreases wanted@.len() - i,
    {
        if chars[start + i] != wanted[i] {
            assert(rest.take(wanted@.len() as int)[i as int] == rest[i as int]);
            return false;
        }
        i = i + 1;
    }
    assert(rest.take(wanted@.len() as int) =~= wanted@);
    true
}

/// The texts of a table of markers.
spec fn marker_views(markers: Seq<(&str, &str)>) -> Seq<(Seq<char>, Seq<char>)> {
    markers.map_values(|m: (&str, &str)| (m.0@, m.1@))
}

/// The first marker that the characters from `start` on begin with.
fn marker_index(chars: &Vec<char>, start: usize, markers: &Vec<(&str, &str)>) -> (index: Option<
    usize,
>)
    requires
        start <= chars@.len(),
    ensures
        match index {
            Some(i) => i < markers@.len() && find_marker(
                chars@.skip(start as int),
                marker_views(markers@),
            ) == Some((markers@[i as int].0@, markers@[i as int].1@)),
            None => find_marker(chars@.skip(start as int), marker_views(markers@)) is None,
        },
{
    let ghost rest = chars@.skip(start as int);
    let ghost table = marker_views(markers@);
    let mut i: usize = 0;
    assert(table.skip(0) =~= table);
    while i < markers.len()
        invariant
            i <= markers@.len(),
            start <= chars@.len(),
            rest == chars@.skip(start as int),
            table == marker_views(markers@),
            find_marker(rest, table) == find_marker(rest, table.skip(i as int)),
        decreases markers@.len() - i,
    {
        assert(table.skip(i as int)[0] == (markers@[i as int].0@, markers@[i as int].1@));
        if marker_at(chars, start, markers[i].0) {
            return Some(i);
        }
        assert(table.skip(i as int).drop_first() =~= table.skip(i + 1));
        i = i + 1;
    }
    None
}

/// Replace the markers of a table in a template.
fn replace_markers(template: &str, markers: &Vec<(&str, &str)>) -> (page: String)
    ensures
        page@ == rendered(template@, marker_views(markers@)),
{
    let chars = text::char_vec(template);
    let ghost table = marker_views(markers@);
    let mut page = String::new();
    let mut i: usize = 0;
    assert(template@.skip(0) =~= template@);
    assert(page@ + rendered(template@.skip(0), table) =~= rendered(template@, table));
    while i < chars.len()
        invariant
            i <= chars@.len(),
            chars@ == template@,
            table == marker_views(markers@),
            page@ + rendered(template@.skip(i as int), table) == rendered(template@, table),
        decreases chars@.len() - i,
    {
        let ghost rest = template@.skip(i as int);
        let ghost before = page@;
        if chars[i] == '{' && chars.len() - i >= 2 && chars[i + 1] == '{' {
            proof {
                lemma_find_marker(rest, table);
            }
            match marker_index(&chars, i, markers) {
                Some(found) => {
                    let marker = markers[found].0;
                    let skipped = text::char_vec(marker).len();
                    push_html_escaped(&mut page, markers[found].1);
                    assert(rest.skip(skipped as int) =~= template@.skip(i + skipped));
                    i = i + skipped;
                },
                None => {
                    page.push('{');
                    page.push('{');
                    assert(page@ =~= before + seq!['{', '{']);
                    assert(rest.skip(2) =~= template@.skip(i + 2));
                    i = i + 2;
                },
            }
        } else {
            page.push(chars[i]);
            assert(page@ =~= before + seq![rest[0]]);
            assert(rest.skip(1) =~= template@.skip(i + 1));
            i = i + 1;
        }
        assert(page@ + rendered(template@.skip(i as int), table) =~= before + rendered(
            rest,
            table,
        ));
    }
    assert(page@ + rendered(template@.skip(i as int), table) =~= page@);
    page
}

/// Render known markers from one template for the requested login state,
/// preserving unknown or absent markers. Scanning only the original template
/// ensures marker-like text in an override is not interpreted recursively.
pub fn render_template(template: &str, text: &TemplateText, wrong_password: bool) -> (page: String)
    ensures
        page@ == self::page(template@, text@, wrong_password),
{
    // String form of the invalid flag, for `aria-invalid`.
    let is_password_invalid = if wrong_password {
        "true"
    } else {
        "false"
    };
    // Focus the field only on the error wall, so the failed-login state is
    // announced immediately after submission.
    let autofocus = if wrong_password {
        "autofocus"
    } else {
        ""
    };
    let wrong_password_message = if wrong_password {
        text.wrong_password_message.as_str()
    } else {
        ""
    };
    let markers: Vec<(&str, &str)> = vec![
        ("{{PAGE_LANGUAGE}}", text.page_language.as_str()),
        ("{{PAGE_TITLE}}", text.page_title.as_str()),
        ("{{PASSWORD_LABEL}}", text.password_label.as_str()),
        ("{{PASSWORD_PLACEHOLDER}}", text.password_placeholder.as_str()),
        ("{{IS_PASSWORD_INVALID}}", is_password_invalid),
        ("{{PASSWORD_AUTOFOCUS}}", autofocus),
        ("{{WRONG_PASSWORD_MESSAGE}}", wrong_password_message),
        ("{{SUBMIT_BUTTON_TEXT}}", text.submit_button_text.as_str()),
    ];
    proof {
        reveal_strlit("");
        assert(""@ =~= Seq::empty());
        assert(marker_views(markers@) =~= page_markers(text@, wrong_password));
    }
    replace_markers(template, &markers)
}

/// Escaping goes character by character: the escaped form of a whole is that of
/// its parts.
pub proof fn lemma_escaped_append(a: Seq<char>, b: Seq<char>)
    ensures
        escaped(a + b) == escaped(a) + escaped(b),
    decreases b.len(),
{
    if b.len() == 0 {
        assert(a + b =~= a);
        assert(escaped(a) + escaped(b) =~= escaped(a));
    } else {
        lemma_escaped_append(a, b.drop_last());
        assert((a + b).drop_last() =~= a + b.drop_last());
        assert(escaped(a + b) =~= escaped(a) + escaped(b));
    }
}

/// Whether one of the five entities starts at `i`.
pub open spec fn entity_at(s: Seq<char>, i: int) -> bool {
    ||| "&amp;"@.is_prefix_of(s.skip(i))
    ||| "&lt;"@.is_prefix_of(s.skip(i))
    ||| "&gt;"@.is_prefix_of(s.skip(i))
    ||| "&quot;"@.is_prefix_of(s.skip(i))
    ||| "&#39;"@.is_prefix_of(s.skip(i))
}

/// Escaped text cannot leave the text or the double-quoted attribute that it
/// stands in: it holds no angle bracket and no quote, and each `&` starts an
/// entity.
pub proof fn lemma_escaped_is_inert(s: Seq<char>)
    ensures
        forall|i: int|
            0 <= i < escaped(s).len() ==> {
                let c = #[trigger] escaped(s)[i];
                &&& c != '<' && c != '>' && c != '"' && c != '\''
                &&& c == '&' ==> entity_at(escaped(s), i)
            },
    decreases s.len(),
{
    reveal_strlit("&amp;");
    reveal_strlit("&lt;");
    reveal_strlit("&gt;");
    reveal_strlit("&quot;");
    reveal_strlit("&#39;");
    if s.len() > 0 {
        let front = escaped(s.drop_last());
        let last = escaped_char(s.last());
        let all = escaped(s);
        lemma_escaped_is_inert(s.drop_last());
        assert forall|i: int| 0 <= i < all.len() implies {
            let c = #[trigger] all[i];
            &&& c != '<' && c != '>' && c != '"' && c != '\''
            &&& c == '&' ==> entity_at(all, i)
        } by {
            if i < front.len() {
                assert(all[i] == front[i]);
                if all[i] == '&' {
                    assert(entity_at(front, i));
                    lemma_entity_extends(front, last, i);
                }
            } else {
                assert(all[i] == last[i - front.len()]);
                if all[i] == '&' {
                    assert(i == front.len());
                    assert(all.skip(i) =~= last);
                    assert(last.subrange(0, last.len() as int) =~= last);
                }
            }
        }
    }
}

proof fn lemma_entity_extends(a: Seq<char>, b: Seq<char>, i: int)
    requires
        0 <= i < a.len(),
        entity_at(a, i),
    ensures
        entity_at(a + b, i),
{
    let rest = a.skip(i);
    let whole = (a + b).skip(i);
    assert(whole =~= rest + b);
    assert forall|entity: Seq<char>| #[trigger] entity.is_prefix_of(rest) implies entity.is_prefix_of(
        whole,
    ) by {
        assert(whole.subrange(0, entity.len() as int) =~= rest.subrange(0, entity.len() as int));
    }
}

/// Different texts stay different when they are escaped.
pub proof fn lemma_escaped_is_injective(a: Seq<char>, b: Seq<char>)
    requires
        escaped(a) == escaped(b),
    ensures
        a == b,
    decreases a.len(),
{
    reveal_strlit("&amp;");
    reveal_strlit("&lt;");
    reveal_strlit("&gt;");
    reveal_strlit("&quot;");
    reveal_strlit("&#39;");
    if a.len() == 0 {
        if b.len() > 0 {
            assert(escaped(b).len() > 0);
        }
        assert(a =~= b);
    } else {
        assert(escaped(a).len() > 0);
        assert(b.len() > 0);
        lemma_escaped_first(a);
        lemma_escaped_first(b);
        let ca = escaped_char(a.first());
        let cb = escaped_char(b.first());
        let rest_a = escaped(a.drop_first());
        let rest_b = escaped(b.drop_first());
        assert((ca + rest_a)[0] == (cb + rest_b)[0]);
        assert(ca[0] == cb[0]);
        if ca[0] == '&' {
            assert((ca + rest_a)[1] == (cb + rest_b)[1]);
            assert(ca[1] == cb[1]);
        }
        assert(a.first() == b.first());
        assert(rest_a =~= (ca + rest_a).skip(ca.len() as int));
        assert(rest_b =~= (cb + rest_b).skip(cb.len() as int));
        lemma_escaped_is_injective(a.drop_first(), b.drop_first());
        assert(a =~= seq![a.first()] + a.drop_first());
        assert(b =~= seq![b.first()] + b.drop_first());
    }
}

proof fn lemma_escaped_first(s: Seq<char>)
    requires
        s.len() > 0,
    ensures
        escaped(s) == escaped_char(s.first()) + escaped(s.drop_first()),
{
    let first = seq![s.first()];
    lemma_escaped_append(first, s.drop_first());
    assert(first + s.drop_first() =~= s);
    assert(first.drop_last() =~= Seq::empty());
    assert(escaped(first.drop_last()) =~= Seq::empty());
    assert(escaped(first) =~= escaped_char(s.first()));
}

/// A template in which no marker starts anywhere stays as it is.
pub proof fn lemma_template_without_markers(t: Seq<char>, markers: Seq<(Seq<char>, Seq<char>)>)
    requires
        forall|i: int| 0 <= i < t.len() ==> find_marker(#[trigger] t.skip(i), markers) is None,
    ensures
        rendered(t, markers) == t,
    decreases t.len(),
{
    if t.len() == 0 {
        assert(rendered(t, markers) =~= t);
    } else {
        assert(t.skip(0) =~= t);
        let n: int = if opens_marker(t) {
            2
        } else {
            1
        };
        let rest = t.skip(n);
        assert forall|i: int| 0 <= i < rest.len() implies find_marker(
            #[trigger] rest.skip(i),
            markers,
        ) is None by {
            assert(rest.skip(i) =~= t.skip(n + i));
        }
        lemma_template_without_markers(rest, markers);
        assert(rendered(t, markers) =~= t.take(n) + rest);
        assert(t.take(n) + rest =~= t);
    }
}

/// Without a brace there is nothing to replace: such a stretch of a template
/// stays, and what follows it is rendered on its own.
pub proof fn lemma_plain_stretch(
    before: Seq<char>,
    rest: Seq<char>,
    markers: Seq<(Seq<char>, Seq<char>)>,
)
    requires
        !before.contains('{'),
    ensures
        rendered(before + rest, markers) == before + rendered(rest, markers),
    decreases before.len(),
{
    if before.len() == 0 {
        assert(before + rest =~= rest);
        assert(before + rendered(rest, markers) =~= rendered(rest, markers));
    } else {
        let t = before + rest;
        assert(before.contains(before[0]));
        let tail = before.skip(1);
        assert forall|i: int| 0 <= i < tail.len() implies tail[i] != '{' by {
            assert(before.contains(before[i + 1]));
        }
        lemma_plain_stretch(tail, rest, markers);
        assert(t.skip(1) =~= tail + rest);
        assert(rendered(t, markers) =~= seq![before[0]] + (tail + rendered(rest, markers)));
        assert(seq![before[0]] + (tail + rendered(rest, markers)) =~= before + rendered(
            rest,
            markers,
        ));
    }
}

/// The first of the markers that a text starts with is found.
proof fn lemma_finds_marker(t: Seq<char>, markers: Seq<(Seq<char>, Seq<char>)>, i: int)
    requires
        0 <= i < markers.len(),
        starts_with_marker(t, markers[i].0),
        forall|j: int| 0 <= j < i ==> !starts_with_marker(t, (#[trigger] markers[j]).0),
    ensures
        find_marker(t, markers) == Some(markers[i]),
    decreases markers.len(),
{
    if i > 0 {
        assert(!starts_with_marker(t, markers[0].0));
        let rest = markers.drop_first();
        assert forall|j: int| 0 <= j < i - 1 implies !starts_with_marker(
            t,
            (#[trigger] rest[j]).0,
        ) by {
            assert(rest[j] == markers[j + 1]);
        }
        lemma_finds_marker(t, rest, i - 1);
    }
}

/// No marker is the beginning of another: two markers differ at a place that
/// both have.
proof fn lemma_markers_differ(text: PageText, wrong_password: bool, i: int, j: int)
    requires
        0 <= j < i < 8,
    ensures
        ({
            let markers = page_markers(text, wrong_password);
            exists|k: int|
                0 <= k < markers[i].0.len() && k < markers[j].0.len() && #[trigger] markers[i].0[k]
                    != markers[j].0[k]
        }),
{
    reveal_strlit("{{PAGE_LANGUAGE}}");
    reveal_strlit("{{PAGE_TITLE}}");
    reveal_strlit("{{PASSWORD_LABEL}}");
    reveal_strlit("{{PASSWORD_PLACEHOLDER}}");
    reveal_strlit("{{IS_PASSWORD_INVALID}}");
    reveal_strlit("{{PASSWORD_AUTOFOCUS}}");
    reveal_strlit("{{WRONG_PASSWORD_MESSAGE}}");
    reveal_strlit("{{SUBMIT_BUTTON_TEXT}}");
    let markers = page_markers(text, wrong_password);
    let a = markers[i].0;
    let b = markers[j].0;
    let k: int = if a[2] != b[2] {
        2
    } else if a[4] != b[4] {
        4
    } else if a[7] != b[7] {
        7
    } else {
        11
    };
    assert(a[k] != b[k]);
}

/// A marker is replaced by its text, escaped, and nothing else happens to that
/// text: marker-like text in it stays as it is. Here the marker is the first
/// one of the template.
pub proof fn lemma_marker_is_replaced_once(
    before: Seq<char>,
    i: int,
    after: Seq<char>,
    text: PageText,
    wrong_password: bool,
)
    requires
        !before.contains('{'),
        0 <= i < 8,
    ensures
        ({
            let (marker, value) = page_markers(text, wrong_password)[i];
            page(before + marker + after, text, wrong_password) == before + escaped(value) + page(
                after,
                text,
                wrong_password,
            )
        }),
{
    let markers = page_markers(text, wrong_password);
    let (marker, value) = markers[i];
    let rest = marker + after;
    reveal_strlit("{{PAGE_LANGUAGE}}");
    reveal_strlit("{{PAGE_TITLE}}");
    reveal_strlit("{{PASSWORD_LABEL}}");
    reveal_strlit("{{PASSWORD_PLACEHOLDER}}");
    reveal_strlit("{{IS_PASSWORD_INVALID}}");
    reveal_strlit("{{PASSWORD_AUTOFOCUS}}");
    reveal_strlit("{{WRONG_PASSWORD_MESSAGE}}");
    reveal_strlit("{{SUBMIT_BUTTON_TEXT}}");
    assert(marker.len() >= 2 && marker[0] == '{' && marker[1] == '{');
    assert(rest.take(marker.len() as int) =~= marker);
    assert forall|j: int| 0 <= j < i implies !starts_with_marker(rest, (#[trigger] markers[j]).0) by {
        lemma_markers_differ(text, wrong_password, i, j);
        let other = markers[j].0;
        let k = choose|k: int|
            0 <= k < marker.len() && k < other.len() && #[trigger] marker[k] != other[k];
        if starts_with_marker(rest, other) {
            assert(rest.take(other.len() as int)[k] == rest[k]);
        }
    }
    lemma_finds_marker(rest, markers, i);
    assert(rest.skip(marker.len() as int) =~= after);
    lemma_plain_stretch(before, rest, markers);
    assert(before + marker + after =~= before + rest);
    assert(before + (escaped(value) + rendered(after, markers)) =~= before + escaped(value)
        + rendered(after, markers));
}

/// The page without a login error does not depend on the failed-login message.
pub proof fn lemma_wall_hides_the_message(
    template: Seq<char>,
    text: PageText,
    message: Seq<char>,
)
    ensures
        page(template, PageText { wrong_password_message: message, ..text }, false) == page(
            template,
            text,
            false,
        ),
{
}

} // verus!
