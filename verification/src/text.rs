//! Strings as sequences of characters: order, search, joining.

use vstd::prelude::*;
use vstd::relations::total_ordering;
use vstd::string::*;
use vstd::utf8::encode_utf8;

verus! {

/// The views of a sequence of values.
pub open spec fn views<T: View>(items: Seq<T>) -> Seq<T::V> {
    Seq::new(items.len(), |i: int| items[i]@)
}

/// What one item more adds to the items that a predicate picks.
pub proof fn lemma_filter_take<A>(items: Seq<A>, pred: spec_fn(A) -> bool, i: int)
    requires
        0 <= i < items.len(),
    ensures
        items.take(i + 1).filter(pred) == if pred(items[i]) {
            items.take(i).filter(pred).push(items[i])
        } else {
            items.take(i).filter(pred)
        },
{
    reveal(Seq::filter);
    assert(items.take(i + 1).drop_last() =~= items.take(i));
}

/// Whatever a predicate picks comes from the items.
pub proof fn lemma_filter_source<A>(items: Seq<A>, pred: spec_fn(A) -> bool, at: int)
    requires
        0 <= at < items.filter(pred).len(),
    ensures
        items.contains(items.filter(pred)[at]),
        pred(items.filter(pred)[at]),
    decreases items.len(),
{
    reveal(Seq::filter);
    if at < items.drop_last().filter(pred).len() {
        lemma_filter_source(items.drop_last(), pred, at);
        let i = choose|i: int|
            0 <= i < items.drop_last().len() && items.drop_last()[i] == items.filter(pred)[at];
        assert(items[i] == items.filter(pred)[at]);
    } else {
        assert(items[items.len() - 1] == items.filter(pred)[at]);
    }
}

/// Whether a list holds a string.
pub fn contains_text(list: &Vec<String>, s: &String) -> (found: bool)
    ensures
        found == views(list@).contains(s@),
{
    let mut i: usize = 0;
    while i < list.len()
        invariant
            i <= list.len(),
            forall|j: int| 0 <= j < i ==> #[trigger] views(list@)[j] != s@,
        decreases list.len() - i,
    {
        if list[i] == *s {
            assert(views(list@)[i as int] == s@);
            return true;
        }
        i += 1;
    }
    false
}

/// A copy of a list of strings.
pub fn copy_of(list: &Vec<String>) -> (copy: Vec<String>)
    ensures
        views(copy@) == views(list@),
{
    let mut copy: Vec<String> = Vec::new();
    let mut i: usize = 0;
    while i < list.len()
        invariant
            i <= list.len(),
            copy@ == list@.take(i as int),
        decreases list.len() - i,
    {
        copy.push(list[i].clone());
        i += 1;
    }
    assert(copy@ =~= list@);
    copy
}

// ---------------------------------------------------------------------------
// Order
// ---------------------------------------------------------------------------

/// Lexicographic order by code point, which is how Rust orders strings.
pub open spec fn str_le(a: Seq<char>, b: Seq<char>) -> bool
    decreases a.len(),
{
    if a.len() == 0 {
        true
    } else if b.len() == 0 {
        false
    } else if a[0] != b[0] {
        (a[0] as int) < (b[0] as int)
    } else {
        str_le(a.drop_first(), b.drop_first())
    }
}

proof fn lemma_str_le_reflexive(a: Seq<char>)
    ensures
        str_le(a, a),
    decreases a.len(),
{
    if a.len() > 0 {
        lemma_str_le_reflexive(a.drop_first());
    }
}

proof fn lemma_str_le_antisymmetric(a: Seq<char>, b: Seq<char>)
    requires
        str_le(a, b),
        str_le(b, a),
    ensures
        a == b,
    decreases a.len(),
{
    if a.len() > 0 {
        lemma_str_le_antisymmetric(a.drop_first(), b.drop_first());
        assert(a =~= seq![a[0]] + a.drop_first());
        assert(b =~= seq![b[0]] + b.drop_first());
    }
}

proof fn lemma_str_le_transitive(a: Seq<char>, b: Seq<char>, c: Seq<char>)
    requires
        str_le(a, b),
        str_le(b, c),
    ensures
        str_le(a, c),
    decreases a.len(),
{
    if a.len() > 0 && a[0] == b[0] && b[0] == c[0] {
        lemma_str_le_transitive(a.drop_first(), b.drop_first(), c.drop_first());
    }
}

proof fn lemma_str_le_total(a: Seq<char>, b: Seq<char>)
    ensures
        str_le(a, b) || str_le(b, a),
    decreases a.len(),
{
    if a.len() > 0 && b.len() > 0 && a[0] == b[0] {
        lemma_str_le_total(a.drop_first(), b.drop_first());
    }
}

/// The order on strings is total: any two strings are ordered, and two that are ordered both
/// ways are equal.
pub proof fn str_le_is_total_order()
    ensures
        total_ordering(|a: Seq<char>, b: Seq<char>| str_le(a, b)),
{
    let leq = |a: Seq<char>, b: Seq<char>| str_le(a, b);
    assert forall|a: Seq<char>| #[trigger] leq(a, a) by {
        lemma_str_le_reflexive(a);
    }
    assert forall|a: Seq<char>, b: Seq<char>| #[trigger] leq(a, b) && #[trigger] leq(b, a) implies a
        == b by {
        lemma_str_le_antisymmetric(a, b);
    }
    assert forall|a: Seq<char>, b: Seq<char>, c: Seq<char>| #[trigger]
        leq(a, b) && #[trigger] leq(b, c) implies leq(a, c) by {
        lemma_str_le_transitive(a, b, c);
    }
    assert forall|a: Seq<char>, b: Seq<char>| #[trigger] leq(a, b) || #[trigger] leq(b, a) by {
        lemma_str_le_total(a, b);
    }
}

/// The characters of a string.
pub fn chars_of(s: &str) -> (chars: Vec<char>)
    ensures
        chars@ == s@,
{
    let mut chars: Vec<char> = Vec::new();
    for c in it: s.chars()
        invariant
            chars@ == it.seq().take(it.index()),
            it.seq() == s@,
    {
        chars.push(c);
    }
    chars
}

/// Whether `a` comes no later than `b` in the order of strings.
pub fn at_most(a: &str, b: &str) -> (le: bool)
    ensures
        le == str_le(a@, b@),
{
    let left = chars_of(a);
    let right = chars_of(b);
    let mut i: usize = 0;
    assert(left@.skip(0) =~= a@);
    assert(right@.skip(0) =~= b@);
    while i < left.len() && i < right.len() && left[i] == right[i]
        invariant
            i <= left.len(),
            i <= right.len(),
            left@ == a@,
            right@ == b@,
            str_le(a@, b@) == str_le(left@.skip(i as int), right@.skip(i as int)),
        decreases left.len() - i,
    {
        assert(left@.skip(i as int).drop_first() =~= left@.skip(i + 1));
        assert(right@.skip(i as int).drop_first() =~= right@.skip(i + 1));
        i += 1;
    }
    if i == left.len() {
        true
    } else if i == right.len() {
        false
    } else {
        left[i] < right[i]
    }
}

// ---------------------------------------------------------------------------
// Search
// ---------------------------------------------------------------------------

/// `pattern` stands in `text` from position `at` on.
pub open spec fn occurs_at(text: Seq<char>, pattern: Seq<char>, at: int) -> bool {
    &&& 0 <= at
    &&& at + pattern.len() <= text.len()
    &&& text.subrange(at, at + pattern.len()) == pattern
}

/// `at` is the least position at which `pattern` stands in `text`.
pub open spec fn occurs_first_at(text: Seq<char>, pattern: Seq<char>, at: int) -> bool {
    &&& occurs_at(text, pattern, at)
    &&& forall|other: int| #[trigger] occurs_at(text, pattern, other) ==> at <= other
}

/// Where `pattern` first stands in `text`, if it does.
pub open spec fn first_occurrence(text: Seq<char>, pattern: Seq<char>) -> Option<int> {
    if exists|at: int| occurs_at(text, pattern, at) {
        Some(choose|at: int| occurs_first_at(text, pattern, at))
    } else {
        None
    }
}

proof fn lemma_least_occurrence(text: Seq<char>, pattern: Seq<char>, at: int)
    requires
        occurs_at(text, pattern, at),
    ensures
        exists|least: int| occurs_first_at(text, pattern, least),
    decreases at,
{
    if exists|before: int| #[trigger] occurs_at(text, pattern, before) && before < at {
        let before = choose|before: int| #[trigger]
            occurs_at(text, pattern, before) && before < at;
        lemma_least_occurrence(text, pattern, before);
    } else {
        assert(occurs_first_at(text, pattern, at));
    }
}

/// A first occurrence is an occurrence, and no other comes before it; a pattern without one
/// does not occur.
pub proof fn first_occurrence_is_least(text: Seq<char>, pattern: Seq<char>)
    ensures
        match first_occurrence(text, pattern) {
            Some(at) => occurs_first_at(text, pattern, at),
            None => forall|at: int| !occurs_at(text, pattern, at),
        },
{
    if exists|at: int| occurs_at(text, pattern, at) {
        lemma_least_occurrence(text, pattern, choose|at: int| occurs_at(text, pattern, at));
    }
}

/// The encoding of two texts in a row is the encodings of the two in a row.
pub proof fn encoding_distributes(a: Seq<char>, b: Seq<char>)
    ensures
        encode_utf8(a + b) == encode_utf8(a) + encode_utf8(b),
    decreases a.len(),
{
    if a.len() == 0 {
        assert(a + b =~= b);
        assert(encode_utf8(a) + encode_utf8(b) =~= encode_utf8(b));
    } else {
        assert((a + b).drop_first() =~= a.drop_first() + b);
        encoding_distributes(a.drop_first(), b);
        assert(encode_utf8(a + b) =~= encode_utf8(a) + encode_utf8(b));
    }
}

/// Whether `pattern` stands in `text` from position `at` on.
fn matches_at(text: &Vec<char>, pattern: &Vec<char>, at: usize) -> (found: bool)
    requires
        at + pattern.len() <= text.len(),
    ensures
        found == occurs_at(text@, pattern@, at as int),
{
    let mut i: usize = 0;
    while i < pattern.len()
        invariant
            i <= pattern.len(),
            at + pattern.len() <= text.len(),
            forall|j: int| 0 <= j < i ==> text@[at + j] == pattern@[j],
        decreases pattern.len() - i,
    {
        if text[at + i] != pattern[i] {
            assert(text@.subrange(at as int, at + pattern.len())[i as int] != pattern@[i as int]);
            return false;
        }
        i += 1;
    }
    assert(text@.subrange(at as int, at + pattern.len()) =~= pattern@);
    true
}

/// The position, counted in characters, at which `pattern` first stands in `text`.
pub fn find_first(text: &str, pattern: &str) -> (found: Option<usize>)
    ensures
        match found {
            Some(at) => first_occurrence(text@, pattern@) == Some(at as int),
            None => first_occurrence(text@, pattern@) is None,
        },
{
    let haystack = chars_of(text);
    let needle = chars_of(pattern);
    if needle.len() > haystack.len() {
        return None;
    }
    let last: usize = haystack.len() - needle.len();
    let mut at: usize = 0;
    loop
        invariant
            haystack@ == text@,
            needle@ == pattern@,
            needle.len() <= haystack.len(),
            last == haystack.len() - needle.len(),
            at <= last,
            forall|before: int| 0 <= before < at ==> !occurs_at(text@, pattern@, before),
        decreases last - at,
    {
        if matches_at(&haystack, &needle, at) {
            proof {
                first_occurrence_is_least(text@, pattern@);
            }
            return Some(at);
        }
        if at == last {
            return None;
        }
        at += 1;
    }
}

/// Whether `text` starts with `prefix`.
pub fn starts_with(text: &str, prefix: &str) -> (starts: bool)
    ensures
        starts == prefix@.is_prefix_of(text@),
{
    let whole = chars_of(text);
    let start = chars_of(prefix);
    start.len() <= whole.len() && matches_at(&whole, &start, 0)
}

/// The part of `text` from the character at `from` on.
pub fn tail_from(text: &str, from: usize) -> (tail: String)
    requires
        from <= text@.len(),
    ensures
        tail@ == text@.skip(from as int),
{
    let len = text.unicode_len();
    text.substring_char(from, len).to_owned()
}

// ---------------------------------------------------------------------------
// Joining
// ---------------------------------------------------------------------------

/// The parts one after the other, with `separator` between each two.
pub open spec fn joined(parts: Seq<Seq<char>>, separator: Seq<char>) -> Seq<char>
    decreases parts.len(),
{
    if parts.len() == 0 {
        Seq::empty()
    } else if parts.len() == 1 {
        parts[0]
    } else {
        joined(parts.drop_last(), separator) + separator + parts.last()
    }
}

/// Joining one part more appends it.
pub proof fn lemma_joined_push(parts: Seq<Seq<char>>, part: Seq<char>, separator: Seq<char>)
    ensures
        joined(parts.push(part), separator) == if parts.len() == 0 {
            part
        } else {
            joined(parts, separator) + separator + part
        },
{
    assert(parts.push(part).drop_last() =~= parts);
}

/// `name` and `version` with a hyphen between them.
pub open spec fn full_name(name: Seq<char>, version: Seq<char>) -> Seq<char> {
    name + "-"@ + version
}

/// `name` and `version` with a hyphen between them.
pub fn full_name_of(name: &str, version: &str) -> (full: String)
    ensures
        full@ == full_name(name@, version@),
{
    name.to_owned().concat("-").concat(version)
}

/// What the `Debug` formatting of `String` writes.
pub uninterp spec fn debug_text(s: Seq<char>) -> Seq<char>;

/// Every character is printable ASCII and neither a quote nor a backslash.
pub open spec fn is_plain(s: Seq<char>) -> bool {
    forall|i: int|
        0 <= i < s.len() ==> {
            &&& ' ' <= #[trigger] s[i] <= '~'
            &&& s[i] != '"'
            &&& s[i] != '\''
            &&& s[i] != '\\'
        }
}

/// A string between two double quotes.
pub open spec fn quoted(s: Seq<char>) -> Seq<char> {
    seq!['"'] + s + seq!['"']
}

/// Calls the `Debug` formatting of `String`, through `format!("{:?}", ..)`. Claims that the
/// text depends on nothing but the characters of the string, and that a string of printable
/// ASCII without quotes and backslashes is written as it is, between double quotes. How other
/// characters are escaped is left unsaid.
#[verifier::external_body]
fn debug_of(s: &String) -> (text: String)
    ensures
        text@ == debug_text(s@),
        is_plain(s@) ==> text@ == quoted(s@),
{
    format!("{:?}", s)
}

/// What `{:?}` writes for a string: one of plain characters stands as it is between quotes.
pub open spec fn debug_form(s: Seq<char>) -> Seq<char> {
    if is_plain(s) {
        quoted(s)
    } else {
        debug_text(s)
    }
}

/// What `{:?}` writes for a list of strings.
pub open spec fn debug_list(items: Seq<Seq<char>>) -> Seq<char> {
    "["@ + joined(items.map_values(|s: Seq<char>| debug_form(s)), ", "@) + "]"@
}

/// What `{:?}` writes for a list of strings.
pub fn debug_list_of(items: &Vec<String>) -> (text: String)
    ensures
        text@ == debug_list(views(items@)),
{
    let mut text = String::new();
    let ghost parts = views(items@).map_values(|s: Seq<char>| debug_form(s));
    assert(text@ =~= joined(parts.take(0), ", "@));
    let mut i: usize = 0;
    while i < items.len()
        invariant
            i <= items.len(),
            parts == views(items@).map_values(|s: Seq<char>| debug_form(s)),
            text@ == joined(parts.take(i as int), ", "@),
        decreases items.len() - i,
    {
        if i > 0 {
            text = text.concat(", ");
        }
        text = text.concat(debug_of(&items[i]).as_str());
        assert(parts.take(i + 1).drop_last() =~= parts.take(i as int));
        assert(i == 0 ==> text@ =~= parts[0]);
        i += 1;
    }
    assert(parts.take(items.len() as int) =~= parts);
    "[".to_owned().concat(text.as_str()).concat("]")
}

// ---------------------------------------------------------------------------
// Laws
// ---------------------------------------------------------------------------

/// The views of a list are as many as its items, and each is that of the item in its place.
pub proof fn views_are_itemwise<T: View>(items: Seq<T>)
    ensures
        views(items).len() == items.len(),
        forall|i: int| 0 <= i < items.len() ==> #[trigger] views(items)[i] == items[i]@,
{
}

/// One string comes no later than another where it is a prefix of it, or where, at the first
/// place at which they differ, it has the lesser character.
pub proof fn str_le_is_lexicographic(a: Seq<char>, b: Seq<char>)
    ensures
        str_le(a, b) <==> a.is_prefix_of(b) || exists|k: int|
            #![trigger a[k]]
            0 <= k < a.len() && k < b.len() && a.take(k) == b.take(k) && (a[k] as int) < (
            b[k] as int),
    decreases a.len(),
{
    if a.len() > 0 && b.len() > 0 {
        if a[0] == b[0] {
            let (c, d) = (a.drop_first(), b.drop_first());
            str_le_is_lexicographic(c, d);
            if c.is_prefix_of(d) {
                assert forall|i: int| 0 <= i < a.len() implies #[trigger] a[i] == b[i] by {
                    if i > 0 {
                        assert(c[i - 1] == d.subrange(0, c.len() as int)[i - 1]);
                    }
                }
                assert(a =~= b.subrange(0, a.len() as int));
            }
            if a.is_prefix_of(b) {
                assert forall|i: int| 0 <= i < c.len() implies #[trigger] c[i] == d[i] by {
                    assert(a[i + 1] == b.subrange(0, a.len() as int)[i + 1]);
                }
                assert(c =~= d.subrange(0, c.len() as int));
            }
            if exists|k: int|
                #![trigger c[k]]
                0 <= k < c.len() && k < d.len() && c.take(k) == d.take(k) && (c[k] as int) < (
                d[k] as int) {
                let k = choose|k: int|
                    #![trigger c[k]]
                    0 <= k < c.len() && k < d.len() && c.take(k) == d.take(k) && (c[k] as int) < (
                    d[k] as int);
                assert forall|i: int| 0 <= i < k + 1 implies #[trigger] a[i] == b[i] by {
                    if i > 0 {
                        assert(c.take(k)[i - 1] == d.take(k)[i - 1]);
                    }
                }
                assert(a.take(k + 1) =~= b.take(k + 1));
                assert((a[k + 1] as int) < (b[k + 1] as int));
            }
            if exists|k: int|
                #![trigger a[k]]
                0 <= k < a.len() && k < b.len() && a.take(k) == b.take(k) && (a[k] as int) < (
                b[k] as int) {
                let k = choose|k: int|
                    #![trigger a[k]]
                    0 <= k < a.len() && k < b.len() && a.take(k) == b.take(k) && (a[k] as int) < (
                    b[k] as int);
                assert forall|i: int| 0 <= i < k - 1 implies #[trigger] c[i] == d[i] by {
                    assert(a.take(k)[i + 1] == b.take(k)[i + 1]);
                }
                assert(c.take(k - 1) =~= d.take(k - 1));
                assert((c[k - 1] as int) < (d[k - 1] as int));
            }
        } else {
            if a.is_prefix_of(b) {
                assert(a[0] == b.subrange(0, a.len() as int)[0]);
            }
            assert(a.take(0) =~= b.take(0));
            assert forall|k: int| 0 < k < a.len() && k < b.len() implies #[trigger] a.take(k)
                != b.take(k) by {
                assert(a.take(k)[0] != b.take(k)[0]);
            }
        }
    } else if a.len() == 0 {
        assert(a =~= b.subrange(0, 0));
    }
}

/// A pattern is first found where the text before it is the shortest: the text is what stands
/// before, the pattern and what stands behind, and no other way to split it so has less before
/// the pattern. A pattern that is not found splits the text in no way.
pub proof fn first_occurrence_splits_the_text(text: Seq<char>, pattern: Seq<char>)
    ensures
        match first_occurrence(text, pattern) {
            Some(at) => {
                &&& 0 <= at
                &&& at + pattern.len() <= text.len()
                &&& text == text.take(at) + pattern + text.skip(at + pattern.len())
                &&& forall|before: Seq<char>, after: Seq<char>|
                    text == #[trigger] before.add(pattern).add(after) ==> at <= before.len()
            },
            None => forall|before: Seq<char>, after: Seq<char>|
                text != #[trigger] before.add(pattern).add(after),
        },
{
    first_occurrence_is_least(text, pattern);
    assert forall|before: Seq<char>, after: Seq<char>|
        text == #[trigger] before.add(pattern).add(after) implies occurs_at(
        text,
        pattern,
        before.len() as int,
    ) by {
        let at = before.len() as int;
        assert(text.subrange(at, at + pattern.len()) =~= pattern);
    }
    if first_occurrence(text, pattern) is Some {
        let at = first_occurrence(text, pattern)->0;
        assert(text.subrange(at, at + pattern.len()) == pattern);
        assert(text =~= text.take(at) + pattern + text.skip(at + pattern.len()));
    }
}

/// Joining no parts gives nothing, joining one gives that part, and joining two rows of parts
/// gives what each of them gives, with the separator between.
pub proof fn joining_goes_part_by_part(
    left: Seq<Seq<char>>,
    right: Seq<Seq<char>>,
    part: Seq<char>,
    separator: Seq<char>,
)
    ensures
        joined(Seq::empty(), separator) == Seq::<char>::empty(),
        joined(seq![part], separator) == part,
        left.len() > 0 && right.len() > 0 ==> joined(left + right, separator) == joined(
            left,
            separator,
        ) + separator + joined(right, separator),
    decreases right.len(),
{
    if left.len() > 0 && right.len() > 0 {
        let whole = left + right;
        assert(whole.last() == right.last());
        assert(whole.drop_last() =~= left + right.drop_last());
        if right.len() == 1 {
            assert(left + right.drop_last() =~= left);
        } else {
            joining_goes_part_by_part(left, right.drop_last(), part, separator);
            assert(joined(whole, separator) =~= joined(left, separator) + separator + joined(
                right,
                separator,
            ));
        }
    }
}

/// A full name reads as the name, a hyphen and the version, and is no longer than that.
pub proof fn full_name_reads_as_name_and_version(name: Seq<char>, version: Seq<char>)
    ensures
        full_name(name, version).len() == name.len() + 1 + version.len(),
        full_name(name, version).take(name.len() as int) == name,
        full_name(name, version)[name.len() as int] == '-',
        full_name(name, version).skip((name.len() + 1) as int) == version,
{
    reveal_strlit("-");
    assert(full_name(name, version).take(name.len() as int) =~= name);
    assert(full_name(name, version).skip((name.len() + 1) as int) =~= version);
}

/// A list of strings is written between brackets. One string more comes before the closing
/// bracket, behind a comma and a space where others came before it. A string of printable
/// ASCII without quotes and backslashes is written as it is, between double quotes.
pub proof fn debug_lists_grow_at_the_end(items: Seq<Seq<char>>, s: Seq<char>)
    ensures
        debug_list(Seq::empty()) == seq!['[', ']'],
        ({
            let plain = forall|i: int|
                0 <= i < s.len() ==> ' ' <= #[trigger] s[i] <= '~' && s[i] != '"' && s[i] != '\''
                    && s[i] != '\\';
            let start = if items.len() == 0 {
                seq!['[']
            } else {
                debug_list(items).drop_last() + seq![',', ' ']
            };
            let written = if plain {
                seq!['"'] + s + seq!['"']
            } else {
                debug_text(s)
            };
            debug_list(items.push(s)) == start + written + seq![']']
        }),
{
    reveal_strlit("[");
    reveal_strlit("]");
    reveal_strlit(", ");
    let write = |s: Seq<char>| debug_form(s);
    let none = Seq::<Seq<char>>::empty();
    assert(none.map_values(write) =~= none);
    assert(debug_list(none) =~= seq!['[', ']']);
    let parts = items.map_values(write);
    assert(items.push(s).map_values(write) =~= parts.push(debug_form(s)));
    lemma_joined_push(parts, debug_form(s), ", "@);
    if items.len() == 0 {
        assert(debug_list(items.push(s)) =~= seq!['['] + debug_form(s) + seq![']']);
    } else {
        assert(debug_list(items).drop_last() =~= "["@ + joined(parts, ", "@));
        assert(debug_list(items.push(s)) =~= debug_list(items).drop_last() + seq![',', ' ']
            + debug_form(s) + seq![']']);
    }
}


} // verus!
