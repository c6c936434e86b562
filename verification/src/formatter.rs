//! The species-name normalization engine.
//!
//! A raw species name is a lowercase, hyphen-delimited identifier such
//! as `"nidoran-f"` or `"iron-moth"`.  Two independent pure transforms
//! derive human-facing strings from it: `format_for_display` for
//! user-facing text and `format_for_bulba` for a wiki link slug.  Each
//! is an ordered cascade of special-case rules where the first matching
//! rule wins, over two primitives: capitalize the first character, and
//! split at the first hyphen, capitalize both segments, and rejoin them
//! with a caller-chosen separator.

use vstd::prelude::*;

verus! {

/// The character is a lowercase ASCII letter.
pub open spec fn is_lower(c: char) -> bool {
    'a' <= c && c <= 'z'
}

/// The character belongs to the raw-name alphabet: lowercase ASCII
/// letters joined by hyphens.
pub open spec fn raw_name_char(c: char) -> bool {
    is_lower(c) || c == '-'
}

/// Every character of the sequence belongs to the raw-name alphabet.
pub open spec fn valid_name_chars(s: Seq<char>) -> bool {
    forall|i: int| 0 <= i < s.len() ==> raw_name_char(#[trigger] s[i])
}

/// A well-formed raw species name: nonempty, over the raw-name
/// alphabet, and neither starting nor ending with a hyphen, so that
/// every hyphen split yields two nonempty segments.
pub open spec fn wf_raw_name(s: Seq<char>) -> bool {
    &&& s.len() >= 1
    &&& valid_name_chars(s)
    &&& s[0] != '-'
    &&& s[s.len() - 1] != '-'
}

/// Uppercases a lowercase ASCII letter; any other character is kept.
pub open spec fn spec_upper(c: char) -> char {
    if is_lower(c) {
        (((c as u32) - 32) as u8) as char
    } else {
        c
    }
}

/// The capitalization primitive: uppercase the first character, leave
/// the remainder unchanged.
pub open spec fn spec_capitalize(s: Seq<char>) -> Seq<char>
    recommends
        s.len() >= 1,
{
    seq![spec_upper(s[0])] + s.subrange(1, s.len() as int)
}

/// The sequence holds the character somewhere.
pub open spec fn contains_char(s: Seq<char>, c: char) -> bool {
    exists|i: int| 0 <= i < s.len() && s[i] == c
}

/// Index of the first hyphen of the sequence.
pub open spec fn first_hyphen(s: Seq<char>) -> int
    recommends
        contains_char(s, '-'),
    decreases s.len(),
{
    if s.len() == 0 {
        0
    } else if s[0] == '-' {
        0
    } else {
        1 + first_hyphen(s.drop_first())
    }
}

/// The hyphen-splitting primitive: split at the first hyphen,
/// capitalize each segment, and join them with the separator.
pub open spec fn spec_split_join(s: Seq<char>, sep: Seq<char>) -> Seq<char>
    recommends
        contains_char(s, '-'),
        s[0] != '-',
        s[s.len() - 1] != '-',
{
    spec_capitalize(s.subrange(0, first_hyphen(s))) + sep + spec_capitalize(
        s.subrange(first_hyphen(s) + 1, s.len() as int),
    )
}

/// The pattern occurs in the sequence starting at index `i`.
pub open spec fn match_at(s: Seq<char>, p: Seq<char>, i: int) -> bool {
    &&& 0 <= i
    &&& i + p.len() <= s.len()
    &&& s.subrange(i, i + p.len()) == p
}

/// The pattern occurs somewhere in the sequence.
pub open spec fn contains_substr(s: Seq<char>, p: Seq<char>) -> bool {
    exists|i: int| match_at(s, p, i)
}

/// The sequence ends with the pattern.
pub open spec fn spec_ends_with(s: Seq<char>, p: Seq<char>) -> bool {
    p.len() <= s.len() && s.subrange(s.len() - p.len(), s.len() as int) == p
}

/// The sequence starts with the pattern.
pub open spec fn spec_starts_with(s: Seq<char>, p: Seq<char>) -> bool {
    p.len() <= s.len() && s.subrange(0, p.len() as int) == p
}

/// The name carries one of the fixed paradox-form prefixes, species
/// whose wiki slug must be built by hand.
pub open spec fn is_paradox_name(s: Seq<char>) -> bool {
    ||| spec_starts_with(s, "iron-"@)
    ||| spec_starts_with(s, "scream-"@)
    ||| spec_starts_with(s, "slither-"@)
    ||| spec_starts_with(s, "brute-"@)
    ||| spec_starts_with(s, "great-"@)
    ||| spec_starts_with(s, "flutter-"@)
    ||| spec_starts_with(s, "sandy-"@)
}

/// The display transform: the ordered rule cascade for user-facing
/// text.  The first matching rule wins; the default strips the first
/// hyphen by splitting on it.
pub open spec fn spec_display(s: Seq<char>) -> Seq<char>
    recommends
        wf_raw_name(s),
{
    if contains_char(s, '-') {
        if contains_substr(s, "idoran"@) {
            if contains_substr(s, "-f"@) {
                "Nidoran ♀"@
            } else {
                "Nidoran ♂"@
            }
        } else if spec_ends_with(s, "-o"@) {
            spec_capitalize(s)
        } else if spec_ends_with(s, "-oh"@) || spec_ends_with(s, "-z"@) {
            spec_split_join(s, "-"@)
        } else if spec_ends_with(s, "-mime"@) {
            "Mr. Mime"@
        } else if s == "type-null"@ {
            "Type: Null"@
        } else {
            spec_split_join(s, " "@)
        }
    } else {
        spec_capitalize(s)
    }
}

/// The link-slug transform: the ordered rule cascade for the wiki URL
/// path segment.  Unlike the display transform it has no catch-all
/// hyphen-stripping rule: a hyphenated name matching no rule keeps its
/// hyphen and is only capitalized once.
pub open spec fn spec_link_slug(s: Seq<char>) -> Seq<char>
    recommends
        wf_raw_name(s),
{
    if contains_char(s, '-') {
        if contains_substr(s, "idoran"@) {
            if contains_substr(s, "-f"@) {
                "Nidoran%E2%99%80"@
            } else {
                "Nidoran%E2%99%82"@
            }
        } else if spec_ends_with(s, "-oh"@) || spec_ends_with(s, "-z"@) {
            spec_split_join(s, "-"@)
        } else if spec_ends_with(s, "-mime"@) {
            "Mr._Mime"@
        } else if s == "type-null"@ {
            "Type:_Null"@
        } else if spec_starts_with(s, "tapu"@) {
            spec_split_join(s, "_"@)
        } else if is_paradox_name(s) {
            spec_split_join(s, "_"@)
        } else {
            spec_capitalize(s)
        }
    } else {
        spec_capitalize(s)
    }
}

/// Relies on `String::push`: appends the given character at the end.
#[verifier::external_body]
fn push_char(s: &mut String, c: char)
    ensures
        final(s)@ == old(s)@.push(c),
{
    s.push(c);
}

/// Uppercases a lowercase ASCII letter; any other character is kept.
fn upper_char(c: char) -> (r: char)
    ensures
        r == spec_upper(c),
{
    let n = c as u32;
    if 97 <= n && n <= 122 {
        ((n - 32) as u8) as char
    } else {
        c
    }
}

/// Uppercases the first character of the name, leaving the remainder
/// unchanged.
pub fn capitalize(name: &str) -> (r: String)
    requires
        name@.len() >= 1,
    ensures
        r@ == spec_capitalize(name@),
{
    let c = name.get_char(0);
    let up = upper_char(c);
    let mut r = String::new();
    push_char(&mut r, up);
    let rest = name.substring_char(1, name.unicode_len());
    r.append(rest);
    proof {
        assert(r@ =~= spec_capitalize(name@));
    }
    r
}

/// First hyphen of `s` is exactly the first index scanned to hold one.
proof fn lemma_first_hyphen_at(s: Seq<char>, i: int)
    requires
        0 <= i < s.len(),
        s[i] == '-',
        forall|j: int| 0 <= j < i ==> s[j] != '-',
    ensures
        first_hyphen(s) == i,
    decreases i,
{
    if i > 0 {
        assert forall|j: int| 0 <= j < i - 1 implies s.drop_first()[j] != '-' by {
            assert(s.drop_first()[j] == s[j + 1]);
        }
        lemma_first_hyphen_at(s.drop_first(), i - 1);
    }
}

/// Whether the name holds a hyphen anywhere.
pub fn has_hyphen(name: &str) -> (r: bool)
    ensures
        r == contains_char(name@, '-'),
{
    let n = name.unicode_len();
    let mut i: usize = 0;
    while i < n
        invariant
            i <= n,
            n == name@.len(),
            forall|j: int| 0 <= j < i ==> name@[j] != '-',
        decreases n - i,
    {
        if name.get_char(i) == '-' {
            return true;
        }
        i += 1;
    }
    false
}

/// Splits the name at its first hyphen, capitalizes both segments and
/// joins them with the separator.
pub fn capitalize_hyphenated(name: &str, separator: &str) -> (r: String)
    requires
        contains_char(name@, '-'),
        name@[0] != '-',
        name@[name@.len() - 1] != '-',
    ensures
        r@ == spec_split_join(name@, separator@),
{
    let n = name.unicode_len();
    let mut i: usize = 0;
    while name.get_char(i) != '-'
        invariant
            0 <= i < n,
            n == name@.len(),
            contains_char(name@, '-'),
            forall|j: int| 0 <= j < i ==> name@[j] != '-',
        decreases n - i,
    {
        proof {
            let w = choose|w: int| 0 <= w < name@.len() && name@[w] == '-';
            assert(i + 1 <= w < n);
        }
        i += 1;
    }
    proof {
        lemma_first_hyphen_at(name@, i as int);
        assert(name@[name@.len() - 1] != '-');
        assert(i < n - 1);
    }
    let n1 = name.substring_char(0, i);
    let n2 = name.substring_char(i + 1, n);
    let mut r = capitalize(n1);
    r.append(separator);
    let c2 = capitalize(n2);
    r.append(c2.as_str());
    proof {
        assert(r@ =~= spec_split_join(name@, separator@));
    }
    r
}

/// Whether the pattern occurs in the name starting at index `i`.
fn eq_at(name: &str, i: usize, pat: &str) -> (r: bool)
    requires
        i + pat@.len() <= name@.len(),
    ensures
        r == match_at(name@, pat@, i as int),
{
    let n = name.unicode_len();
    let m = pat.unicode_len();
    let mut k: usize = 0;
    while k < m
        invariant
            k <= m,
            n == name@.len(),
            m == pat@.len(),
            i + m <= n,
            forall|j: int| 0 <= j < k ==> name@[i + j] == pat@[j],
        decreases m - k,
    {
        if name.get_char(i + k) != pat.get_char(k) {
            proof {
                if match_at(name@, pat@, i as int) {
                    assert(name@.subrange(i as int, i + pat@.len())[k as int] == pat@[k as int]);
                }
            }
            return false;
        }
        k += 1;
    }
    proof {
        assert(name@.subrange(i as int, i + pat@.len()) =~= pat@);
    }
    true
}

/// Whether the pattern occurs anywhere in the name.
pub fn contains_sub(name: &str, pat: &str) -> (r: bool)
    ensures
        r == contains_substr(name@, pat@),
{
    let n = name.unicode_len();
    let m = pat.unicode_len();
    if m > n {
        return false;
    }
    if m == 0 {
        proof {
            assert(name@.subrange(0, 0) =~= pat@);
            assert(match_at(name@, pat@, 0));
        }
        return true;
    }
    let mut i: usize = 0;
    while i <= n - m
        invariant
            n == name@.len(),
            m == pat@.len(),
            1 <= m <= n,
            i <= n - m + 1,
            forall|j: int| 0 <= j < i ==> !match_at(name@, pat@, j),
        decreases n - i,
    {
        if eq_at(name, i, pat) {
            return true;
        }
        i += 1;
    }
    proof {
        assert forall|j: int| !match_at(name@, pat@, j) by {
            if j < 0 || j > n - m {
                assert(!match_at(name@, pat@, j));
            }
        }
    }
    false
}

/// Whether the name ends with the pattern.
pub fn ends_with_pat(name: &str, pat: &str) -> (r: bool)
    ensures
        r == spec_ends_with(name@, pat@),
{
    let n = name.unicode_len();
    let m = pat.unicode_len();
    if m > n {
        return false;
    }
    eq_at(name, n - m, pat)
}

/// Whether the name starts with the pattern.
pub fn starts_with_pat(name: &str, pat: &str) -> (r: bool)
    ensures
        r == spec_starts_with(name@, pat@),
{
    let n = name.unicode_len();
    let m = pat.unicode_len();
    if m > n {
        return false;
    }
    eq_at(name, 0, pat)
}

/// Whether the two strings hold the same characters.
pub fn str_equal(name: &str, pat: &str) -> (r: bool)
    ensures
        r == (name@ == pat@),
{
    let n = name.unicode_len();
    let m = pat.unicode_len();
    if n != m {
        return false;
    }
    let r = eq_at(name, 0, pat);
    proof {
        assert(name@.subrange(0, name@.len() as int) =~= name@);
    }
    r
}

/// Whether the string is a well-formed raw species name, exactly the
/// precondition of the two formatters; unverified callers test it
/// before formatting.
pub fn is_wf_raw_name(name: &str) -> (r: bool)
    ensures
        r == wf_raw_name(name@),
{
    let n = name.unicode_len();
    if n == 0 {
        return false;
    }
    if name.get_char(0) == '-' || name.get_char(n - 1) == '-' {
        return false;
    }
    let mut i: usize = 0;
    while i < n
        invariant
            i <= n,
            n == name@.len(),
            forall|j: int| 0 <= j < i ==> raw_name_char(#[trigger] name@[j]),
            name@[0] != '-',
            name@[n - 1] != '-',
        decreases n - i,
    {
        let c = name.get_char(i);
        let code = c as u32;
        if !((97 <= code && code <= 122) || c == '-') {
            return false;
        }
        i += 1;
    }
    true
}

/// Whether the name belongs to the Nidoran family.
pub fn is_nidoran(name: &str) -> (r: bool)
    ensures
        r == contains_substr(name@, "idoran"@),
{
    contains_sub(name, "idoran")
}

/// Whether the name carries one of the fixed paradox-form prefixes.
pub fn is_paradox(name: &str) -> (r: bool)
    ensures
        r == is_paradox_name(name@),
{
    starts_with_pat(name, "iron-") || starts_with_pat(name, "scream-") || starts_with_pat(
        name,
        "slither-",
    ) || starts_with_pat(name, "brute-") || starts_with_pat(name, "great-") || starts_with_pat(
        name,
        "flutter-",
    ) || starts_with_pat(name, "sandy-")
}

/// Maps a raw species name to its user-facing display string by the
/// ordered display rule cascade.
pub fn format_for_display(name: &str) -> (r: String)
    requires
        wf_raw_name(name@),
    ensures
        r@ == spec_display(name@),
{
    if has_hyphen(name) {
        if is_nidoran(name) {
            if contains_sub(name, "-f") {
                String::from_str("Nidoran ♀")
            } else {
                String::from_str("Nidoran ♂")
            }
        } else if ends_with_pat(name, "-o") {
            capitalize(name)
        } else if ends_with_pat(name, "-oh") || ends_with_pat(name, "-z") {
            capitalize_hyphenated(name, "-")
        } else if ends_with_pat(name, "-mime") {
            String::from_str("Mr. Mime")
        } else if str_equal(name, "type-null") {
            String::from_str("Type: Null")
        } else {
            capitalize_hyphenated(name, " ")
        }
    } else {
        capitalize(name)
    }
}

/// Maps a raw species name to its wiki link slug by the ordered
/// link-slug rule cascade.
pub fn format_for_bulba(name: &str) -> (r: String)
    requires
        wf_raw_name(name@),
    ensures
        r@ == spec_link_slug(name@),
{
    if has_hyphen(name) {
        if is_nidoran(name) {
            if contains_sub(name, "-f") {
                String::from_str("Nidoran%E2%99%80")
            } else {
                String::from_str("Nidoran%E2%99%82")
            }
        } else if ends_with_pat(name, "-oh") || ends_with_pat(name, "-z") {
            capitalize_hyphenated(name, "-")
        } else if ends_with_pat(name, "-mime") {
            String::from_str("Mr._Mime")
        } else if str_equal(name, "type-null") {
            String::from_str("Type:_Null")
        } else if starts_with_pat(name, "tapu") {
            capitalize_hyphenated(name, "_")
        } else if is_paradox(name) {
            capitalize_hyphenated(name, "_")
        } else {
            capitalize(name)
        }
    } else {
        capitalize(name)
    }
}

/// The formatter's output pair — the display string and the wiki link
/// slug — both pure derivations of the raw name, independent of the
/// shiny flag.
pub fn formatted_name(name: &str) -> (r: (String, String))
    requires
        wf_raw_name(name@),
    ensures
        r.0@ == spec_display(name@),
        r.1@ == spec_link_slug(name@),
{
    (format_for_display(name), format_for_bulba(name))
}

} // verus!
