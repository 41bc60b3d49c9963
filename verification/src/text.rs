//! Plain text: the few string operations that the rest of the library reads.

use vstd::prelude::*;

verus! {

/// Unicode's `White_Space` property.
pub open spec fn is_white_space(c: char) -> bool {
    let code = c as u32;
    ||| 0x09 <= code <= 0x0d
    ||| code == 0x20
    ||| code == 0x85
    ||| code == 0xa0
    ||| code == 0x1680
    ||| 0x2000 <= code <= 0x200a
    ||| code == 0x2028
    ||| code == 0x2029
    ||| code == 0x202f
    ||| code == 0x205f
    ||| code == 0x3000
}

/// `s` without its leading white space.
pub open spec fn trim_start(s: Seq<char>) -> Seq<char>
    decreases s.len(),
{
    if s.len() > 0 && is_white_space(s.first()) {
        trim_start(s.drop_first())
    } else {
        s
    }
}

/// `s` without its trailing white space.
pub open spec fn trim_end(s: Seq<char>) -> Seq<char>
    decreases s.len(),
{
    if s.len() > 0 && is_white_space(s.last()) {
        trim_end(s.drop_last())
    } else {
        s
    }
}

/// `s` without leading and trailing white space.
pub open spec fn trimmed(s: Seq<char>) -> Seq<char> {
    trim_end(trim_start(s))
}

/// The lower-case form of an ASCII letter; any other character as it is.
pub open spec fn ascii_lower(c: char) -> char {
    if 'A' <= c <= 'Z' {
        (c as u32 + 32) as char
    } else {
        c
    }
}

/// `s` with its ASCII letters in lower case.
pub open spec fn ascii_lowercase(s: Seq<char>) -> Seq<char> {
    s.map_values(|c: char| ascii_lower(c))
}

/// A number in decimal, without leading zeros.
pub open spec fn decimal(n: nat) -> Seq<char>
    decreases n,
{
    let digit = "0123456789"@[(n % 10) as int];
    if n < 10 {
        seq![digit]
    } else {
        decimal(n / 10).push(digit)
    }
}

/// The stretches of `s` between the separators, in order: one more than
/// there are separators.
pub open spec fn split<A>(s: Seq<A>, separator: A) -> Seq<Seq<A>>
    decreases s.len(),
{
    if s.len() == 0 {
        seq![Seq::empty()]
    } else {
        let front = split(s.drop_last(), separator);
        if s.last() == separator {
            front.push(Seq::empty())
        } else {
            front.drop_last().push(front.last().push(s.last()))
        }
    }
}

/// What stands before and after the first separator, if there is one.
pub open spec fn cut<A>(s: Seq<A>, separator: A) -> Option<(Seq<A>, Seq<A>)>
    decreases s.len(),
{
    if s.len() == 0 {
        None
    } else if s.first() == separator {
        Some((Seq::empty(), s.drop_first()))
    } else {
        match cut(s.drop_first(), separator) {
            Some((before, after)) => Some((seq![s.first()] + before, after)),
            None => None,
        }
    }
}

/// The parts one after the other, with `separator` between neighbours.
pub open spec fn join(parts: Seq<Seq<char>>, separator: Seq<char>) -> Seq<char>
    decreases parts.len(),
{
    if parts.len() == 0 {
        Seq::empty()
    } else if parts.len() == 1 {
        parts[0]
    } else {
        join(parts.drop_last(), separator) + separator + parts.last()
    }
}

/// The characters of each string.
pub open spec fn views(strings: Seq<String>) -> Seq<Seq<char>> {
    strings.map_values(|s: String| s@)
}

/// The characters of an optional string.
pub open spec fn string_view(s: Option<String>) -> Option<Seq<char>> {
    match s {
        Some(s) => Some(s@),
        None => None,
    }
}

/// The characters of an optional string slice.
pub open spec fn str_view(s: Option<&str>) -> Option<Seq<char>> {
    match s {
        Some(s) => Some(s@),
        None => None,
    }
}

/// `str::trim` removes leading and trailing characters that have Unicode's
/// `White_Space` property, and nothing else.
pub assume_specification[ str::trim ](s: &str) -> (r: &str)
    ensures
        r@ == trimmed(s@),
;

/// `str::eq_ignore_ascii_case` compares two strings as if their ASCII letters
/// were in lower case.
pub assume_specification[ str::eq_ignore_ascii_case ](s: &str, other: &str) -> (r: bool)
    ensures
        r == (ascii_lowercase(s@) == ascii_lowercase(other@)),
;

/// `String::push` appends one character.
pub assume_specification[ String::push ](s: &mut String, c: char)
    ensures
        final(s)@ == old(s)@.push(c),
;

/// Two `str`s are `==` when they hold the same characters.
pub assume_specification[ <str as PartialEq>::eq ](s: &str, other: &str) -> (r: bool)
    ensures
        r == (s@ == other@),
;

/// A number in decimal.
pub fn decimal_text(n: u64) -> (text: String)
    ensures
        text@ == decimal(n as nat),
    decreases n,
{
    proof {
        reveal_strlit("0123456789");
    }
    let digit = "0123456789".get_char((n % 10) as usize);
    let mut text = if n < 10 {
        String::new()
    } else {
        decimal_text(n / 10)
    };
    text.push(digit);
    assert(text@ =~= decimal(n as nat));
    text
}

/// The pieces of `s` between the separators.
pub fn split_on(s: &str, separator: char) -> (pieces: Vec<String>)
    ensures
        views(pieces@) == split(s@, separator),
{
    let mut pieces: Vec<String> = Vec::new();
    let mut piece = String::new();
    assert(views(pieces@).push(piece@) =~= split(s@.take(0), separator));
    for c in iter: s.chars()
        invariant
            iter.seq() == s@,
            views(pieces@).push(piece@) == split(s@.take(iter.index() as int), separator),
    {
        proof {
            let n = iter.index() as int;
            assert(s@.take(n + 1).drop_last() =~= s@.take(n));
            assert(views(pieces@).push(piece@).drop_last() =~= views(pieces@));
        }
        if c == separator {
            let ghost before = pieces@;
            pieces.push(piece);
            piece = String::new();
            assert(views(pieces@) =~= views(before).push(pieces@.last()@));
        } else {
            piece.push(c);
        }
    }
    assert(s@.take(s@.len() as int) =~= s@);
    let ghost before = pieces@;
    pieces.push(piece);
    assert(views(pieces@) =~= views(before).push(piece@));
    pieces
}

/// Whether `s` starts with `prefix`.
pub fn starts_with(s: &str, prefix: &str) -> (r: bool)
    ensures
        r == prefix@.is_prefix_of(s@),
{
    let chars = char_vec(s);
    let wanted = char_vec(prefix);
    if wanted.len() > chars.len() {
        return false;
    }
    let mut i: usize = 0;
    while i < wanted.len()
        invariant
            i <= wanted@.len() <= chars@.len(),
            chars@ == s@,
            wanted@ == prefix@,
            forall|j: int| 0 <= j < i ==> chars@[j] == wanted@[j],
        decreases wanted@.len() - i,
    {
        if chars[i] != wanted[i] {
            assert(s@.subrange(0, wanted@.len() as int)[i as int] != wanted@[i as int]);
            return false;
        }
        i = i + 1;
    }
    assert(s@.subrange(0, wanted@.len() as int) =~= wanted@);
    true
}

/// A split leaves at least one piece, and no piece holds the separator.
pub proof fn lemma_split_pieces<A>(s: Seq<A>, separator: A)
    ensures
        split(s, separator).len() > 0,
        forall|i: int|
            0 <= i < split(s, separator).len() ==> !(#[trigger] split(s, separator)[i]).contains(
                separator,
            ),
    decreases s.len(),
{
    if s.len() > 0 {
        let front = split(s.drop_last(), separator);
        lemma_split_pieces(s.drop_last(), separator);
        if s.last() != separator {
            let piece = front.last().push(s.last());
            assert(!front[front.len() - 1].contains(separator));
            assert forall|j: int| 0 <= j < piece.len() implies piece[j] != separator by {
                if j < front.last().len() {
                    assert(front.last()[j] == piece[j]);
                }
            }
        }
    }
}

/// The last piece is what `s` ends in, and a separator stands before it unless
/// it is all of `s`.
pub proof fn lemma_split_last<A>(s: Seq<A>, separator: A)
    ensures
        split(s, separator).len() > 0,
        ({
            let piece = split(s, separator).last();
            &&& piece.len() <= s.len()
            &&& s.skip(s.len() - piece.len()) == piece
            &&& piece.len() < s.len() ==> s[s.len() - piece.len() - 1] == separator
        }),
    decreases s.len(),
{
    lemma_split_pieces(s, separator);
    let piece = split(s, separator).last();
    if s.len() > 0 {
        lemma_split_last(s.drop_last(), separator);
        let front = split(s.drop_last(), separator).last();
        assert(s.skip(s.len() - piece.len()) =~= piece);
    } else {
        assert(s.skip(0) =~= piece);
    }
}

/// A text is cut at the separator behind what holds none.
pub proof fn lemma_cut<A>(before: Seq<A>, after: Seq<A>, separator: A)
    requires
        !before.contains(separator),
    ensures
        cut(before.push(separator) + after, separator) == Some((before, after)),
    decreases before.len(),
{
    let whole = before.push(separator) + after;
    if before.len() == 0 {
        assert(whole.first() == separator);
        assert(whole.drop_first() =~= after);
        assert(before =~= Seq::empty());
    } else {
        let rest = before.drop_first();
        assert(before.contains(before.first()));
        assert forall|i: int| 0 <= i < rest.len() implies rest[i] != separator by {
            assert(before.contains(before[i + 1]));
        }
        lemma_cut(rest, after, separator);
        assert(whole.drop_first() =~= rest.push(separator) + after);
        assert(seq![whole.first()] + rest =~= before);
    }
}

/// What follows without a separator belongs to the last piece.
pub proof fn lemma_split_append<A>(a: Seq<A>, b: Seq<A>, separator: A)
    requires
        !b.contains(separator),
    ensures
        split(a + b, separator) == split(a, separator).drop_last().push(
            split(a, separator).last() + b,
        ),
    decreases b.len(),
{
    lemma_split_pieces(a, separator);
    if b.len() == 0 {
        assert(a + b =~= a);
        assert(split(a, separator).last() + b =~= split(a, separator).last());
        assert(split(a, separator).drop_last().push(split(a, separator).last()) =~= split(
            a,
            separator,
        ));
    } else {
        assert forall|i: int| 0 <= i < b.len() - 1 implies b.drop_last()[i] != separator by {
            assert(b.contains(b[i]));
        }
        lemma_split_append(a, b.drop_last(), separator);
        assert((a + b).drop_last() =~= a + b.drop_last());
        assert(b.contains(b.last()));
        let front = split(a, separator).drop_last();
        let piece = split(a, separator).last() + b.drop_last();
        assert(front.push(piece).drop_last() =~= front);
        assert(piece.push(b.last()) =~= split(a, separator).last() + b);
    }
}

/// Behind a separator, what follows without one is a piece of its own.
pub proof fn lemma_split_join<A>(a: Seq<A>, b: Seq<A>, separator: A)
    requires
        !b.contains(separator),
    ensures
        split(a.push(separator) + b, separator) == split(a, separator).push(b),
{
    assert(a.push(separator).drop_last() =~= a);
    lemma_split_append(a.push(separator), b, separator);
    assert(split(a, separator).push(Seq::empty()).drop_last() =~= split(a, separator));
    assert(Seq::<A>::empty() + b =~= b);
}

/// The pieces that parts joined by `; ` are split into: the parts, with a space
/// before each but the first.
pub open spec fn spaced(parts: Seq<Seq<char>>) -> Seq<Seq<char>> {
    Seq::new(
        parts.len(),
        |i: int|
            if i == 0 {
                parts[0]
            } else {
                seq![' '] + parts[i]
            },
    )
}

/// Parts without `;` that are joined by `; ` come apart at the `;`s again.
pub proof fn lemma_split_joined(parts: Seq<Seq<char>>)
    requires
        parts.len() > 0,
        forall|i: int| 0 <= i < parts.len() ==> !(#[trigger] parts[i]).contains(';'),
    ensures
        split(join(parts, "; "@), ';') == spaced(parts),
    decreases parts.len(),
{
    reveal_strlit("; ");
    if parts.len() == 1 {
        let nothing = Seq::<char>::empty();
        lemma_split_append(nothing, parts[0], ';');
        assert(nothing + parts[0] =~= parts[0]);
        assert(split(nothing, ';') =~= seq![nothing]);
        assert(split(parts[0], ';') =~= spaced(parts));
    } else {
        let front = parts.drop_last();
        assert forall|i: int| 0 <= i < front.len() implies !(#[trigger] front[i]).contains(
            ';',
        ) by {
            assert(front[i] == parts[i]);
        }
        lemma_split_joined(front);
        let piece = seq![' '] + parts.last();
        assert(!piece.contains(';')) by {
            assert(!parts[parts.len() - 1].contains(';'));
            assert forall|j: int| 0 <= j < piece.len() implies piece[j] != ';' by {
                if j > 0 {
                    assert(parts.last().contains(piece[j]));
                }
            }
        }
        lemma_split_join(join(front, "; "@), piece, ';');
        assert(join(parts, "; "@) =~= join(front, "; "@).push(';') + piece);
        assert(spaced(front).push(piece) =~= spaced(parts));
    }
}

/// Whether a text has no white space at either end.
pub open spec fn is_trimmed(s: Seq<char>) -> bool {
    s.len() > 0 ==> !is_white_space(s.first()) && !is_white_space(s.last())
}

/// Trimming leaves no white space at either end.
pub proof fn lemma_trimmed(s: Seq<char>)
    ensures
        is_trimmed(trimmed(s)),
{
    lemma_trim_start(s);
    lemma_trim_end(trim_start(s));
}

proof fn lemma_trim_start(s: Seq<char>)
    ensures
        trim_start(s).len() > 0 ==> !is_white_space(trim_start(s).first()),
    decreases s.len(),
{
    if s.len() > 0 && is_white_space(s.first()) {
        lemma_trim_start(s.drop_first());
    }
}

proof fn lemma_trim_end(s: Seq<char>)
    ensures
        trim_end(s).len() > 0 ==> !is_white_space(trim_end(s).last()) && trim_end(s).first()
            == s.first(),
    decreases s.len(),
{
    if s.len() > 0 && is_white_space(s.last()) {
        lemma_trim_end(s.drop_last());
    }
}

/// A text without white space at either end stays as it is, also behind a
/// space.
pub proof fn lemma_trim_again(s: Seq<char>)
    requires
        is_trimmed(s),
    ensures
        trimmed(s) == s,
        trimmed(seq![' '] + s) == s,
{
    assert((seq![' '] + s).drop_first() =~= s);
}

/// Trimming ASCII leaves ASCII.
pub proof fn lemma_trimmed_is_ascii(s: Seq<char>)
    requires
        vstd::utf8::is_ascii_chars(s),
    ensures
        vstd::utf8::is_ascii_chars(trimmed(s)),
{
    lemma_trim_start_is_ascii(s);
    lemma_trim_end_is_ascii(trim_start(s));
}

proof fn lemma_trim_start_is_ascii(s: Seq<char>)
    requires
        vstd::utf8::is_ascii_chars(s),
    ensures
        vstd::utf8::is_ascii_chars(trim_start(s)),
    decreases s.len(),
{
    if s.len() > 0 && is_white_space(s.first()) {
        lemma_trim_start_is_ascii(s.drop_first());
    }
}

proof fn lemma_trim_end_is_ascii(s: Seq<char>)
    requires
        vstd::utf8::is_ascii_chars(s),
    ensures
        vstd::utf8::is_ascii_chars(trim_end(s)),
    decreases s.len(),
{
    if s.len() > 0 && is_white_space(s.last()) {
        lemma_trim_end_is_ascii(s.drop_last());
    }
}

/// Trimming adds no character.
pub proof fn lemma_trimmed_without(s: Seq<char>, c: char)
    requires
        !s.contains(c),
    ensures
        !trimmed(s).contains(c),
{
    lemma_trim_start_without(s, c);
    lemma_trim_end_without(trim_start(s), c);
}

proof fn lemma_trim_start_without(s: Seq<char>, c: char)
    requires
        !s.contains(c),
    ensures
        !trim_start(s).contains(c),
    decreases s.len(),
{
    if s.len() > 0 && is_white_space(s.first()) {
        assert forall|i: int| 0 <= i < s.len() - 1 implies s.drop_first()[i] != c by {
            assert(s.contains(s[i + 1]));
        }
        lemma_trim_start_without(s.drop_first(), c);
    }
}

proof fn lemma_trim_end_without(s: Seq<char>, c: char)
    requires
        !s.contains(c),
    ensures
        !trim_end(s).contains(c),
    decreases s.len(),
{
    if s.len() > 0 && is_white_space(s.last()) {
        assert forall|i: int| 0 <= i < s.len() - 1 implies s.drop_last()[i] != c by {
            assert(s.contains(s[i]));
        }
        lemma_trim_end_without(s.drop_last(), c);
    }
}

/// The characters of `s`, one by one.
pub fn char_vec(s: &str) -> (chars: Vec<char>)
    ensures
        chars@ == s@,
{
    let mut chars: Vec<char> = Vec::new();
    for c in iter: s.chars()
        invariant
            iter.seq() == s@,
            chars@ == s@.take(iter.index() as int),
    {
        chars.push(c);
    }
    chars
}

} // verus!
