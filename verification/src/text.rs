//! Text and its UTF-8 bytes.

use vstd::prelude::*;
use vstd::string::*;
use vstd::utf8::{decode_utf8, encode_utf8, valid_utf8};

verus! {

/// The text that `String::from_utf8_lossy` makes of bytes that are no UTF-8.
pub uninterp spec fn replaced_utf8(bytes: Seq<u8>) -> Seq<char>;

/// The text of bytes, where what is no UTF-8 is replaced.
pub open spec fn utf8_lossy(bytes: Seq<u8>) -> Seq<char> {
    if valid_utf8(bytes) {
        decode_utf8(bytes)
    } else {
        replaced_utf8(bytes)
    }
}

/// `String::from_utf8_lossy`: valid UTF-8 is decoded as it stands. What comes
/// of other bytes depends on them alone and has a name; which characters are
/// replaced is not said.
#[verifier::external_body]
pub(crate) fn from_utf8_lossy(bytes: &[u8]) -> (text: String)
    ensures
        valid_utf8(bytes@) ==> text@ == decode_utf8(bytes@),
        !valid_utf8(bytes@) ==> text@ == replaced_utf8(bytes@),
{
    String::from_utf8_lossy(bytes).into_owned()
}

/// What `std::str::Utf8Error` says of bytes that are no UTF-8.
pub uninterp spec fn utf8_complaint(bytes: Seq<u8>) -> Seq<char>;

/// `std::str::from_utf8`: the text of the bytes, if they are valid UTF-8, and
/// else the error in words, which depends on the bytes alone and has a name.
#[verifier::external_body]
fn checked_utf8(bytes: &[u8]) -> (r: Result<String, String>)
    ensures
        match r {
            Ok(text) => valid_utf8(bytes@) && text@ == decode_utf8(bytes@),
            Err(reason) => !valid_utf8(bytes@) && reason@ == utf8_complaint(bytes@),
        },
{
    match std::str::from_utf8(bytes) {
        Ok(text) => Ok(text.to_owned()),
        Err(e) => Err(e.to_string()),
    }
}

/// The text of the bytes, if they are valid UTF-8.
pub(crate) fn from_utf8(bytes: &[u8]) -> (text: Option<String>)
    ensures
        text is Some <==> valid_utf8(bytes@),
        text is Some ==> text->0@ == decode_utf8(bytes@),
{
    match checked_utf8(bytes) {
        Ok(text) => Some(text),
        Err(_) => None,
    }
}

/// What is said of bytes that are no UTF-8.
pub(crate) fn utf8_error(bytes: &[u8]) -> (text: String)
    requires
        !valid_utf8(bytes@),
    ensures
        text@ == utf8_complaint(bytes@),
{
    match checked_utf8(bytes) {
        Ok(text) => text,
        Err(reason) => reason,
    }
}

/// `String::from` of a character: the text of that character alone.
#[verifier::external_body]
pub(crate) fn char_text(c: char) -> (text: String)
    ensures
        text@ == seq![c],
{
    String::from(c)
}

/// The bytes of a text decode to the text.
pub proof fn lemma_utf8_round_trip(text: Seq<char>)
    ensures
        valid_utf8(encode_utf8(text)),
        decode_utf8(encode_utf8(text)) == text,
        utf8_lossy(encode_utf8(text)) == text,
{
    vstd::utf8::encode_utf8_valid_utf8(text);
    vstd::utf8::encode_utf8_decode_utf8(text);
}

/// The characters of a text.
pub fn chars_of(text: &str) -> (chars: Vec<char>)
    ensures
        chars@ == text@,
{
    let mut chars: Vec<char> = Vec::new();
    for c in it: text.chars()
        invariant
            it.seq() == text@,
            chars@ == it.seq().take(it.index() as int),
    {
        chars.push(c);
    }
    chars
}

/// White space, as Unicode lists it.
pub open spec fn is_space(c: char) -> bool {
    '\u{9}' <= c <= '\u{d}' || c == ' ' || c == '\u{85}' || c == '\u{a0}' || c == '\u{1680}'
        || '\u{2000}' <= c <= '\u{200a}' || c == '\u{2028}' || c == '\u{2029}' || c == '\u{202f}'
        || c == '\u{205f}' || c == '\u{3000}'
}

/// Whether a character is white space.
pub fn is_whitespace(c: char) -> (r: bool)
    ensures
        r == is_space(c),
{
    ('\u{9}' <= c && c <= '\u{d}') || c == ' ' || c == '\u{85}' || c == '\u{a0}' || c == '\u{1680}'
        || ('\u{2000}' <= c && c <= '\u{200a}') || c == '\u{2028}' || c == '\u{2029}' || c
        == '\u{202f}' || c == '\u{205f}' || c == '\u{3000}'
}

/// A text without the white space in front of it.
pub open spec fn trim_start(s: Seq<char>) -> Seq<char>
    decreases s.len(),
{
    if s.len() > 0 && is_space(s[0]) {
        trim_start(s.skip(1))
    } else {
        s
    }
}

/// A text without the white space behind it.
pub open spec fn trim_end(s: Seq<char>) -> Seq<char>
    decreases s.len(),
{
    if s.len() > 0 && is_space(s.last()) {
        trim_end(s.drop_last())
    } else {
        s
    }
}

/// A text without the white space around it.
pub open spec fn trim(s: Seq<char>) -> Seq<char> {
    trim_end(trim_start(s))
}

/// The range of a part of a text without the white space around it.
pub fn trim_range(chars: &Vec<char>, from: usize, to: usize) -> (r: (usize, usize))
    requires
        from <= to <= chars@.len(),
    ensures
        from <= r.0 <= r.1 <= to,
        chars@.subrange(r.0 as int, r.1 as int) == trim(chars@.subrange(from as int, to as int)),
{
    let ghost part = chars@.subrange(from as int, to as int);
    let mut a: usize = from;
    while a < to && is_whitespace(chars[a])
        invariant
            from <= a <= to <= chars@.len(),
            part == chars@.subrange(from as int, to as int),
            trim_start(part) == trim_start(chars@.subrange(a as int, to as int)),
        decreases to - a,
    {
        let ghost rest = chars@.subrange(a as int, to as int);
        assert(rest[0] == chars@[a as int]);
        assert(rest.skip(1) =~= chars@.subrange(a + 1, to as int));
        a = a + 1;
    }
    let ghost front = chars@.subrange(a as int, to as int);
    assert(trim_start(part) == front) by {
        if a < to {
            assert(front[0] == chars@[a as int]);
        }
    }
    let mut b: usize = to;
    while a < b && is_whitespace(chars[b - 1])
        invariant
            from <= a <= b <= to <= chars@.len(),
            trim_end(front) == trim_end(chars@.subrange(a as int, b as int)),
        decreases b - a,
    {
        let ghost rest = chars@.subrange(a as int, b as int);
        assert(rest.last() == chars@[b - 1]);
        assert(rest.drop_last() =~= chars@.subrange(a as int, b - 1));
        b = b - 1;
    }
    proof {
        let rest = chars@.subrange(a as int, b as int);
        if a < b {
            assert(rest.last() == chars@[b - 1]);
        }
    }
    (a, b)
}

/// A text without the white space around it.
pub fn trimmed(text: &str) -> (r: String)
    ensures
        r@ == trim(text@),
{
    let chars: Vec<char> = chars_of(text);
    let (a, b): (usize, usize) = trim_range(&chars, 0, chars.len());
    assert(chars@.subrange(0, chars@.len() as int) =~= chars@);
    text.substring_char(a, b).to_owned()
}

/// What a part of a list gives: nothing where it is blank.
pub open spec fn kept(part: Seq<char>) -> Seq<Seq<char>> {
    if trim(part).len() == 0 {
        Seq::empty()
    } else {
        seq![trim(part)]
    }
}

/// The parts of a list that is separated by commas, behind the characters of
/// the part that was begun: without the white space around each part, and
/// without the blank parts.
pub open spec fn parts_from(begun: Seq<char>, s: Seq<char>) -> Seq<Seq<char>>
    decreases s.len(),
{
    if s.len() == 0 {
        kept(begun)
    } else if s[0] == ',' {
        kept(begun) + parts_from(Seq::empty(), s.skip(1))
    } else {
        parts_from(begun.push(s[0]), s.skip(1))
    }
}

/// The parts of a list that is separated by commas.
pub open spec fn parts(s: Seq<char>) -> Seq<Seq<char>> {
    parts_from(Seq::empty(), s)
}

/// The texts of a sequence of strings.
pub open spec fn texts(s: Seq<String>) -> Seq<Seq<char>> {
    s.map_values(|t: String| t@)
}

/// Pushing a string pushes its text.
pub proof fn lemma_texts_push(s: Seq<String>, t: String)
    ensures
        texts(s.push(t)) == texts(s).push(t@),
        texts(Seq::empty()) == Seq::<Seq<char>>::empty(),
{
    assert(texts(s.push(t)) =~= texts(s).push(t@));
    assert(texts(Seq::empty()) =~= Seq::<Seq<char>>::empty());
}

/// Splits a list at its commas; blank parts are left out.
pub fn split_list(text: &str) -> (r: Vec<String>)
    ensures
        texts(r@) == parts(text@),
{
    let chars: Vec<char> = chars_of(text);
    let mut list: Vec<String> = Vec::new();
    let mut from: usize = 0;
    let mut i: usize = 0;
    assert(chars@.subrange(0, 0) =~= Seq::empty());
    assert(chars@.skip(0) =~= chars@);
    proof {
        lemma_texts_push(Seq::empty(), arbitrary());
        assert(texts(list@) + parts(text@) =~= parts(text@));
    }
    while i < chars.len()
        invariant
            from <= i <= chars@.len(),
            chars@ == text@,
            parts(text@) == texts(list@) + parts_from(
                chars@.subrange(from as int, i as int),
                chars@.skip(i as int),
            ),
        decreases chars@.len() - i,
    {
        let ghost begun = chars@.subrange(from as int, i as int);
        let ghost rest = chars@.skip(i as int);
        assert(rest[0] == chars@[i as int]);
        assert(rest.skip(1) =~= chars@.skip(i + 1));
        if chars[i] == ',' {
            let (a, b): (usize, usize) = trim_range(&chars, from, i);
            let ghost before = texts(list@);
            if a < b {
                let part: String = text.substring_char(a, b).to_owned();
                proof {
                    lemma_texts_push(list@, part);
                }
                list.push(part);
            }
            proof {
                assert(texts(list@) =~= before + kept(begun));
                assert(chars@.subrange(i + 1, i + 1) =~= Seq::empty());
                assert(before + (kept(begun) + parts_from(Seq::empty(), chars@.skip(i + 1)))
                    =~= before + kept(begun) + parts_from(Seq::empty(), chars@.skip(i + 1)));
            }
            from = i + 1;
        } else {
            assert(begun.push(chars@[i as int]) =~= chars@.subrange(from as int, i + 1));
        }
        i = i + 1;
    }
    let (a, b): (usize, usize) = trim_range(&chars, from, i);
    let ghost before = texts(list@);
    if a < b {
        let part: String = text.substring_char(a, b).to_owned();
        proof {
            lemma_texts_push(list@, part);
        }
        list.push(part);
    }
    proof {
        assert(chars@.skip(i as int) =~= Seq::empty());
        assert(texts(list@) =~= before + kept(chars@.subrange(from as int, i as int)));
    }
    list
}

/// An ASCII letter in lower case; any other character stays.
pub open spec fn ascii_lower(c: char) -> char {
    if 'A' <= c <= 'Z' {
        (c as u32 + 32) as char
    } else {
        c
    }
}

/// Two texts differ at most in the case of ASCII letters.
pub open spec fn same_ignoring_case(a: Seq<char>, b: Seq<char>) -> bool {
    a.len() == b.len() && forall|i: int|
        0 <= i < a.len() ==> ascii_lower(#[trigger] a[i]) == ascii_lower(b[i])
}

/// An ASCII letter in lower case.
fn to_ascii_lower(c: char) -> (r: char)
    ensures
        r == ascii_lower(c),
{
    match c {
        'A' => 'a', 'B' => 'b', 'C' => 'c', 'D' => 'd', 'E' => 'e', 'F' => 'f', 'G' => 'g',
        'H' => 'h', 'I' => 'i', 'J' => 'j', 'K' => 'k', 'L' => 'l', 'M' => 'm', 'N' => 'n',
        'O' => 'o', 'P' => 'p', 'Q' => 'q', 'R' => 'r', 'S' => 's', 'T' => 't', 'U' => 'u',
        'V' => 'v', 'W' => 'w', 'X' => 'x', 'Y' => 'y', 'Z' => 'z',
        _ => c,
    }
}

/// Whether two texts differ at most in the case of ASCII letters.
pub fn eq_ignore_case(a: &str, b: &str) -> (r: bool)
    ensures
        r == same_ignoring_case(a@, b@),
{
    let x: Vec<char> = chars_of(a);
    let y: Vec<char> = chars_of(b);
    if x.len() != y.len() {
        return false;
    }
    let mut i: usize = 0;
    while i < x.len()
        invariant
            i <= x@.len(),
            x@ == a@,
            y@ == b@,
            x@.len() == y@.len(),
            forall|j: int| 0 <= j < i ==> ascii_lower(#[trigger] x@[j]) == ascii_lower(y@[j]),
        decreases x@.len() - i,
    {
        if to_ascii_lower(x[i]) != to_ascii_lower(y[i]) {
            assert(ascii_lower(a@[i as int]) != ascii_lower(b@[i as int]));
            return false;
        }
        i = i + 1;
    }
    true
}

/// Whether two texts are the same.
pub fn same_text(a: &str, b: &str) -> (r: bool)
    ensures
        r == (a@ == b@),
{
    a.to_owned() == b.to_owned()
}

/// Two texts, one behind the other.
pub fn both(a: &str, b: &str) -> (r: String)
    ensures
        r@ == a@ + b@,
{
    let mut text: String = a.to_owned();
    text.append(b);
    text
}

/// Three texts, one behind the other.
pub fn joined(a: &str, b: &str, c: &str) -> (r: String)
    ensures
        r@ == a@ + b@ + c@,
{
    let mut text: String = a.to_owned();
    text.append(b);
    text.append(c);
    text
}

/// The text of an optional string.
pub open spec fn opt_text(s: Option<String>) -> Option<Seq<char>> {
    match s {
        Some(t) => Some(t@),
        None => None,
    }
}

/// Texts, one behind the other, with a separator between them.
pub open spec fn join(s: Seq<Seq<char>>, separator: Seq<char>) -> Seq<char>
    decreases s.len(),
{
    if s.len() == 0 {
        Seq::empty()
    } else if s.len() == 1 {
        s[0]
    } else {
        join(s.drop_last(), separator) + separator + s.last()
    }
}

/// Texts, one behind the other, with a separator between them.
pub fn join_texts(s: &Vec<String>, separator: &str) -> (r: String)
    ensures
        r@ == join(texts(s@), separator@),
{
    let mut text: String = "".to_owned();
    let ghost all = texts(s@);
    let mut i: usize = 0;
    proof {
        reveal_strlit("");
        assert(text@ =~= join(all.take(0), separator@));
    }
    while i < s.len()
        invariant
            i <= s@.len(),
            all == texts(s@),
            text@ == join(all.take(i as int), separator@),
        decreases s@.len() - i,
    {
        if i > 0 {
            text.append(separator);
        }
        text.append(s[i].as_str());
        proof {
            let now = all.take(i + 1);
            assert(now.drop_last() =~= all.take(i as int));
            assert(now.last() == s@[i as int]@);
            if i == 0 {
                assert(text@ =~= now[0]);
            }
        }
        i = i + 1;
    }
    assert(all.take(i as int) =~= all);
    text
}

/// Whether a text stands somewhere in another.
pub open spec fn occurs_at(text: Seq<char>, part: Seq<char>, i: int) -> bool {
    0 <= i && i + part.len() <= text.len() && text.subrange(i, i + part.len()) == part
}

/// A text stands somewhere in another.
pub open spec fn occurs(text: Seq<char>, part: Seq<char>) -> bool {
    exists|i: int| #[trigger] occurs_at(text, part, i)
}

/// Whether a text stands somewhere in another.
pub fn contains_text(text: &str, part: &str) -> (r: bool)
    ensures
        r == occurs(text@, part@),
{
    let t: Vec<char> = chars_of(text);
    let p: Vec<char> = chars_of(part);
    if p.len() > t.len() {
        return false;
    }
    let last: usize = t.len() - p.len();
    let mut i: usize = 0;
    loop
        invariant
            i <= last,
            last == t@.len() - p@.len(),
            t@.len() <= usize::MAX,
            t@ == text@,
            p@ == part@,
            forall|k: int| 0 <= k < i ==> !(#[trigger] occurs_at(text@, part@, k)),
        decreases last - i,
    {
        let mut j: usize = 0;
        while j < p.len() && t[i + j] == p[j]
            invariant
                j <= p@.len(),
                i + p@.len() <= t@.len() <= usize::MAX,
                forall|k: int| 0 <= k < j ==> t@[i + k] == p@[k],
            decreases p@.len() - j,
        {
            j = j + 1;
        }
        if j == p.len() {
            assert(text@.subrange(i as int, i + part@.len()) =~= part@);
            assert(occurs_at(text@, part@, i as int));
            return true;
        }
        assert(!occurs_at(text@, part@, i as int)) by {
            if occurs_at(text@, part@, i as int) {
                assert(text@.subrange(i as int, i + part@.len())[j as int] == part@[j as int]);
            }
        }
        if i == last {
            return false;
        }
        i = i + 1;
    }
}

/// A copy of an optional text.
pub fn copy_opt(s: &Option<String>) -> (r: Option<String>)
    ensures
        opt_text(r) == opt_text(*s),
{
    match s {
        Some(t) => Some(t.clone()),
        None => None,
    }
}

/// A copy of texts.
pub fn copy_texts(s: &Vec<String>) -> (r: Vec<String>)
    ensures
        texts(r@) == texts(s@),
{
    let mut r: Vec<String> = Vec::new();
    let mut i: usize = 0;
    while i < s.len()
        invariant
            i <= s@.len(),
            r@.len() == i,
            forall|j: int| 0 <= j < i ==> (#[trigger] r@[j])@ == s@[j]@,
        decreases s@.len() - i,
    {
        r.push(s[i].clone());
        i = i + 1;
    }
    assert(texts(r@) =~= texts(s@));
    r
}

/// All are spaces.
pub open spec fn all_spaces(s: Seq<char>) -> bool {
    forall|i: int| 0 <= i < s.len() ==> is_space(#[trigger] s[i])
}

/// Neither the first nor the last character is a space.
pub open spec fn has_no_ends(s: Seq<char>) -> bool {
    s.len() > 0 ==> !is_space(s[0]) && !is_space(s.last())
}

/// What is cut off in front is spaces, and none is left there.
proof fn lemma_trim_start(s: Seq<char>) -> (n: nat)
    ensures
        n <= s.len(),
        trim_start(s) == s.skip(n as int),
        all_spaces(s.take(n as int)),
        trim_start(s).len() > 0 ==> !is_space(trim_start(s)[0]),
    decreases s.len(),
{
    if s.len() > 0 && is_space(s[0]) {
        let n = lemma_trim_start(s.skip(1));
        assert(s.skip(1).skip(n as int) =~= s.skip(n as int + 1));
        assert forall|i: int| 0 <= i < n + 1 implies is_space(#[trigger] s.take(n as int + 1)[i]) by {
            if i > 0 {
                assert(s.skip(1).take(n as int)[i - 1] == s[i]);
            }
        }
        n + 1
    } else {
        assert(s.skip(0) =~= s);
        0
    }
}

/// What is cut off behind is spaces, and none is left there.
proof fn lemma_trim_end(s: Seq<char>) -> (n: nat)
    ensures
        n <= s.len(),
        trim_end(s) == s.take(n as int),
        all_spaces(s.skip(n as int)),
        trim_end(s).len() > 0 ==> !is_space(trim_end(s).last()),
    decreases s.len(),
{
    if s.len() > 0 && is_space(s.last()) {
        let init = s.drop_last();
        let n = lemma_trim_end(init);
        assert(init.take(n as int) =~= s.take(n as int));
        assert forall|i: int| 0 <= i < s.len() - n implies is_space(
            #[trigger] s.skip(n as int)[i],
        ) by {
            if i < s.len() - n - 1 {
                assert(init.skip(n as int)[i] == s[n + i]);
            }
        }
        n
    } else {
        assert(s.take(s.len() as int) =~= s);
        s.len()
    }
}

/// Trimming a text cuts spaces off both its ends, and nothing else: what is
/// left has no space at its ends, and with spaces before and behind it is the
/// text again.
pub proof fn law_trim_cuts_spaces(s: Seq<char>)
    ensures
        has_no_ends(trim(s)),
        exists|front: Seq<char>, back: Seq<char>|
            all_spaces(front) && all_spaces(back) && s == #[trigger] (front + trim(s) + back),
{
    let n = lemma_trim_start(s);
    let rest = trim_start(s);
    let k = lemma_trim_end(rest);
    let front = s.take(n as int);
    let back = rest.skip(k as int);
    assert(s =~= front + trim(s) + back);
    if trim(s).len() > 0 {
        assert(trim(s)[0] == rest[0]);
    }
}

/// A text without spaces at its ends stays as it is.
pub proof fn law_trimmed_text_stays(s: Seq<char>)
    requires
        has_no_ends(s),
    ensures
        trim(s) == s,
{
}

/// Characters without a comma are gathered.
proof fn lemma_gathered(part: Seq<char>, begun: Seq<char>, rest: Seq<char>)
    requires
        !part.contains(','),
    ensures
        parts_from(begun, part + rest) == parts_from(begun + part, rest),
    decreases part.len(),
{
    if part.len() == 0 {
        assert(part + rest =~= rest);
        assert(begun + part =~= begun);
    } else {
        let more = part.skip(1);
        assert((part + rest).skip(1) =~= more + rest);
        assert((part + rest)[0] == part[0]);
        assert(part.contains(part[0]));
        assert forall|i: int| 0 <= i < more.len() implies more[i] != ',' by {
            assert(part.contains(part[i + 1]));
        }
        lemma_gathered(more, begun.push(part[0]), rest);
        assert(begun.push(part[0]) + more =~= begun + part);
    }
}

/// A part up to a comma is read, and then the parts behind it.
pub proof fn law_comma_ends_part(part: Seq<char>, rest: Seq<char>)
    requires
        !part.contains(','),
    ensures
        parts(part + seq![','] + rest) == kept(part) + parts(rest),
        parts(part) == kept(part),
{
    let none = Seq::<char>::empty();
    assert(part + seq![','] + rest =~= part + (seq![','] + rest));
    lemma_gathered(part, none, seq![','] + rest);
    assert(none + part =~= part);
    assert((seq![','] + rest).skip(1) =~= rest);
    lemma_gathered(part, none, none);
    assert(part + none =~= part);
}

/// Texts that a comma can separate: none is empty, holds a comma, or has a
/// space at an end.
pub open spec fn separable(s: Seq<Seq<char>>) -> bool {
    forall|i: int|
        0 <= i < s.len() ==> (#[trigger] s[i]).len() > 0 && !s[i].contains(',') && has_no_ends(s[i])
}

/// Texts that were joined by commas are found again, all and in their order.
pub proof fn law_joined_parts_are_found(s: Seq<Seq<char>>)
    requires
        separable(s),
    ensures
        parts(join(s, seq![','])) == s,
    decreases s.len(),
{
    let comma = seq![','];
    if s.len() == 0 {
        assert(parts(Seq::empty()) =~= s);
    } else if s.len() == 1 {
        law_trimmed_text_stays(s[0]);
        law_comma_ends_part(s[0], Seq::empty());
        assert(kept(s[0]) =~= s);
    } else {
        let more = s.skip(1);
        lemma_join_front(s, comma);
        assert(forall|i: int| 0 <= i < more.len() ==> more[i] == s[i + 1]);
        law_joined_parts_are_found(more);
        law_trimmed_text_stays(s[0]);
        law_comma_ends_part(s[0], join(more, comma));
        assert(kept(s[0]) + more =~= s);
    }
}

/// Joined texts are the first one, a separator and the others joined.
proof fn lemma_join_front(s: Seq<Seq<char>>, separator: Seq<char>)
    requires
        s.len() > 1,
    ensures
        join(s, separator) == s[0] + separator + join(s.skip(1), separator),
    decreases s.len(),
{
    let init = s.drop_last();
    let more = s.skip(1);
    if s.len() == 2 {
        assert(join(init, separator) == s[0]);
        assert(join(more, separator) == s[1]);
    } else {
        lemma_join_front(init, separator);
        assert(more.drop_last() =~= init.skip(1));
        assert(more.last() == s.last());
        assert(join(s, separator) =~= s[0] + separator + join(more, separator));
    }
}

} // verus!
