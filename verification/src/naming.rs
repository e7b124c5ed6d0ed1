//! Safe, unused names for discovered devices.
use vstd::prelude::*;
use vstd::string::StringExecFns;

use crate::address;
use crate::address::IpAddr;
use crate::numeral;
use crate::registry;
use crate::registry::Config;
use crate::text;

verus! {

/// The lower-case mapping of a character in the Unicode character database: what
/// `char::to_lowercase` yields.
pub uninterp spec fn lowercase_of(c: char) -> Seq<char>;

/// `s` with every character replaced by its lower-case mapping.
pub open spec fn lowered(s: Seq<char>) -> Seq<char>
    decreases s.len(),
{
    if s.len() == 0 {
        Seq::empty()
    } else {
        lowered(s.drop_last()) + lowercase_of(s.last())
    }
}

/// Whether `s` consists of ASCII characters.
pub open spec fn all_ascii(s: Seq<char>) -> bool {
    forall|i: int| 0 <= i < s.len() ==> (#[trigger] s[i]) <= '\u{7f}'
}

/// Whether `c` separates the words of a name.
pub open spec fn is_separator(c: char) -> bool {
    c == '-' || c == '_' || c == ' '
}

/// The ASCII letters and digits of `s`, with one hyphen for each run of separators after the first
/// of them; every other character is left out.
pub open spec fn hyphenated(s: Seq<char>) -> Seq<char>
    decreases s.len(),
{
    if s.len() == 0 {
        Seq::empty()
    } else {
        let before = hyphenated(s.drop_last());
        let c = s.last();
        if text::is_ascii_alphanumeric(c) {
            before.push(c)
        } else if is_separator(c) && before.len() > 0 && before.last() != '-' {
            before.push('-')
        } else {
            before
        }
    }
}

/// The words of `s` with hyphens between them and none at the end.
pub open spec fn slug(s: Seq<char>) -> Seq<char> {
    let all = hyphenated(s);
    if all.len() > 0 && all.last() == '-' {
        all.drop_last()
    } else {
        all
    }
}

/// The slug of `s`, where there is anything in it.
pub open spec fn slug_name(s: Seq<char>) -> Option<Seq<char>> {
    if slug(s).len() > 0 {
        Some(slug(s))
    } else {
        None
    }
}

/// `s` with hyphens for its points and colons.
pub open spec fn dashed(s: Seq<char>) -> Seq<char> {
    s.map_values(
        |c: char|
            if c == '.' || c == ':' {
                '-'
            } else {
                c
            },
    )
}

/// The name of a device without a usable nickname: its model, as it reads in lower case, and its
/// address.
pub open spec fn fallback_name(model: Seq<char>, ip: IpAddr) -> Seq<char> {
    (match slug_name(model) {
        Some(m) => m,
        None => "tapo"@,
    }).push('-') + dashed(address::ip_text(ip))
}

/// The name of a device before it is held against those that are taken.
pub open spec fn base_name(nickname: Seq<char>, model: Seq<char>, ip: IpAddr) -> Seq<char> {
    match slug_name(nickname) {
        Some(n) => n,
        None => fallback_name(model, ip),
    }
}

/// `base` with a hyphen and the number.
pub open spec fn numbered(base: Seq<char>, n: nat) -> Seq<char> {
    base.push('-') + numeral::decimal(n)
}

/// Whether `n` is the least number from 2 on that makes an unused name of `base`.
pub open spec fn is_first_free(names: Set<Seq<char>>, base: Seq<char>, n: nat) -> bool {
    &&& n >= 2
    &&& !names.contains(numbered(base, n))
    &&& forall|k: nat| 2 <= k < n ==> names.contains(#[trigger] numbered(base, k))
}

/// The least number from 2 on that makes an unused name of `base`.
pub open spec fn first_free(names: Set<Seq<char>>, base: Seq<char>) -> nat {
    choose|n: nat| is_first_free(names, base, n)
}

/// `base`, or where it is taken `base` with the least number from 2 on that makes it unused.
pub open spec fn unused_name(names: Set<Seq<char>>, base: Seq<char>) -> Seq<char> {
    if names.contains(base) {
        numbered(base, first_free(names, base))
    } else {
        base
    }
}

/// The name for a discovered device whose nickname and model read as given in lower case.
pub open spec fn device_name(
    names: Set<Seq<char>>,
    nickname: Seq<char>,
    model: Seq<char>,
    ip: IpAddr,
) -> Seq<char> {
    unused_name(names, base_name(nickname, model, ip))
}

// Facts about names

/// A text with one more character at the end, in lower case.
proof fn lemma_lowered_push(s: Seq<char>, c: char)
    ensures
        lowered(s.push(c)) == lowered(s) + lowercase_of(c),
{
    assert(s.push(c).drop_last() =~= s);
}

/// A hyphenated text is made of letters, digits and hyphens, does not start with a hyphen and
/// holds no two in a row.
pub proof fn lemma_hyphenated_shape(s: Seq<char>)
    ensures
        ({
            let h = hyphenated(s);
            &&& forall|i: int|
                0 <= i < h.len() ==> (text::is_ascii_alphanumeric(#[trigger] h[i]) || h[i] == '-')
            &&& h.len() > 0 ==> h[0] != '-'
            &&& forall|i: int| 0 < i < h.len() && #[trigger] h[i] == '-' ==> h[i - 1] != '-'
        }),
    decreases s.len(),
{
    if s.len() > 0 {
        lemma_hyphenated_shape(s.drop_last());
    }
}

/// A slug is made of letters, digits and hyphens, with a letter or digit at either end and no two
/// hyphens in a row.
pub proof fn law_slug_shape(s: Seq<char>)
    ensures
        forall|i: int|
            0 <= i < slug(s).len() ==> (text::is_ascii_alphanumeric(#[trigger] slug(s)[i])
                || slug(s)[i] == '-'),
        slug(s).len() > 0 ==> slug(s)[0] != '-' && slug(s).last() != '-',
        forall|i: int|
            0 < i < slug(s).len() && #[trigger] slug(s)[i] == '-' ==> slug(s)[i - 1] != '-',
        slug(s).len() > 0 ==> registry::is_valid_name(slug(s)),
{
    lemma_hyphenated_shape(s);
    let h = hyphenated(s);
    if h.len() > 0 && h.last() == '-' {
        assert(h[h.len() - 1] == '-');
        assert(h.len() > 1);
        assert(h[h.len() - 2] != '-');
    }
}

/// A slug keeps the ASCII letters and digits of a text, all of them and in order.
pub proof fn law_slug_keeps_letters(s: Seq<char>)
    ensures
        slug(s).filter(|c: char| text::is_ascii_alphanumeric(c)) == s.filter(
            |c: char| text::is_ascii_alphanumeric(c),
        ),
{
    let keep = |c: char| text::is_ascii_alphanumeric(c);
    lemma_hyphenated_letters(s);
    let h = hyphenated(s);
    if h.len() > 0 && h.last() == '-' {
        assert(h.drop_last().push('-') =~= h);
        h.drop_last().lemma_filter_push('-', keep);
    }
}

/// A hyphenated text keeps the ASCII letters and digits, all of them and in order.
proof fn lemma_hyphenated_letters(s: Seq<char>)
    ensures
        hyphenated(s).filter(|c: char| text::is_ascii_alphanumeric(c)) == s.filter(
            |c: char| text::is_ascii_alphanumeric(c),
        ),
    decreases s.len(),
{
    let keep = |c: char| text::is_ascii_alphanumeric(c);
    if s.len() == 0 {
        assert(hyphenated(s) =~= s);
    } else {
        let before = s.drop_last();
        lemma_hyphenated_letters(before);
        assert(before.push(s.last()) =~= s);
        before.lemma_filter_push(s.last(), keep);
        hyphenated(before).lemma_filter_push(s.last(), keep);
        hyphenated(before).lemma_filter_push('-', keep);
    }
}

/// A slug is the slug of itself.
pub proof fn law_slug_is_its_own_slug(s: Seq<char>)
    ensures
        slug(slug(s)) == slug(s),
{
    law_slug_shape(s);
    let t = slug(s);
    lemma_hyphenated_fixed(t, t.len() as int);
    assert(t.take(t.len() as int) =~= t);
}

proof fn lemma_hyphenated_fixed(t: Seq<char>, n: int)
    requires
        0 <= n <= t.len(),
        forall|i: int|
            0 <= i < t.len() ==> (text::is_ascii_alphanumeric(#[trigger] t[i]) || t[i] == '-'),
        t.len() > 0 ==> t[0] != '-',
        forall|i: int| 0 < i < t.len() && #[trigger] t[i] == '-' ==> t[i - 1] != '-',
    ensures
        hyphenated(t.take(n)) == t.take(n),
    decreases n,
{
    if n > 0 {
        lemma_hyphenated_fixed(t, n - 1);
        let p = t.take(n);
        assert(p.drop_last() =~= t.take(n - 1));
        assert(p.last() == t[n - 1]);
        assert(t.take(n - 1).push(t[n - 1]) =~= p);
        if t[n - 1] == '-' {
            assert(t.take(n - 1).last() == t[n - 2]);
        }
    }
}

/// Whether `s` holds no ASCII capital.
pub open spec fn no_ascii_capitals(s: Seq<char>) -> bool {
    forall|i: int| 0 <= i < s.len() ==> !('A' <= #[trigger] s[i] && s[i] <= 'Z')
}

/// Whether `c` is an ASCII small letter, a digit or a hyphen.
pub open spec fn is_safe_char(c: char) -> bool {
    ||| 'a' <= c && c <= 'z'
    ||| '0' <= c && c <= '9'
    ||| c == '-'
}

/// Whether `s` is made of ASCII small letters, digits and hyphens.
pub open spec fn all_safe_chars(s: Seq<char>) -> bool {
    forall|i: int| 0 <= i < s.len() ==> is_safe_char(#[trigger] s[i])
}

/// Whether `s` is a safe name: not empty, made of ASCII small letters, digits and hyphens, with no
/// hyphen at either end and no two in a row.
pub open spec fn is_safe_name(s: Seq<char>) -> bool {
    &&& s.len() > 0
    &&& all_safe_chars(s)
    &&& s[0] != '-'
    &&& s.last() != '-'
    &&& forall|i: int| 0 < i < s.len() && #[trigger] s[i] == '-' ==> s[i - 1] != '-'
}

/// There is a slug exactly where there is an ASCII letter or digit to make one of.
pub proof fn law_slug_exists(s: Seq<char>)
    ensures
        slug_name(s) is None <==> forall|i: int|
            0 <= i < s.len() ==> !text::is_ascii_alphanumeric(#[trigger] s[i]),
{
    lemma_hyphenated_exists(s);
    law_slug_shape(s);
    lemma_hyphenated_shape(s);
}

proof fn lemma_hyphenated_exists(s: Seq<char>)
    ensures
        hyphenated(s).len() == 0 <==> forall|i: int|
            0 <= i < s.len() ==> !text::is_ascii_alphanumeric(#[trigger] s[i]),
    decreases s.len(),
{
    if s.len() > 0 {
        let before = s.drop_last();
        lemma_hyphenated_exists(before);
        assert(s[s.len() - 1] == s.last());
        assert forall|i: int| 0 <= i < before.len() implies before[i] == s[i] by {}
        if hyphenated(before).len() > 0 {
            let i = choose|i: int|
                0 <= i < before.len() && text::is_ascii_alphanumeric(#[trigger] before[i]);
            assert(text::is_ascii_alphanumeric(s[i]));
        } else {
            assert forall|i: int| 0 <= i < s.len() - 1 implies !text::is_ascii_alphanumeric(
                #[trigger] s[i],
            ) by {
                assert(!text::is_ascii_alphanumeric(before[i]));
            }
        }
    }
}

/// Of a text without ASCII capitals, such as one in lower case, the slug is a safe name that is in
/// lower case already and is its own safe name.
pub proof fn law_slugs_are_safe_names(s: Seq<char>)
    requires
        no_ascii_capitals(s),
    ensures
        text::ascii_lowered(slug(s)) == slug(s),
        all_ascii(slug(s)),
        slug_name(s) matches Some(t) ==> is_safe_name(t) && slug_name(text::ascii_lowered(t))
            == Some(t),
{
    law_slug_shape(s);
    law_slug_is_its_own_slug(s);
    lemma_hyphenated_small(s);
    let t = slug(s);
    assert forall|i: int| 0 <= i < t.len() implies is_safe_char(#[trigger] t[i]) by {
        assert(t[i] == hyphenated(s)[i]);
        assert(text::is_ascii_alphanumeric(t[i]) || t[i] == '-');
    }
    assert forall|i: int| 0 <= i < t.len() implies (#[trigger] t[i]) <= '\u{7f}' by {
        assert(is_safe_char(t[i]));
    }
    assert forall|i: int| 0 <= i < t.len() implies text::ascii_lower(#[trigger] t[i]) == t[i] by {
        assert(is_safe_char(t[i]));
    }
    assert(text::ascii_lowered(t) =~= t);
}

proof fn lemma_hyphenated_small(s: Seq<char>)
    requires
        no_ascii_capitals(s),
    ensures
        no_ascii_capitals(hyphenated(s)),
    decreases s.len(),
{
    if s.len() > 0 {
        let before = s.drop_last();
        assert forall|i: int| 0 <= i < before.len() implies !('A' <= #[trigger] before[i]
            && before[i] <= 'Z') by {
            assert(before[i] == s[i]);
        }
        lemma_hyphenated_small(before);
        assert(s[s.len() - 1] == s.last());
    }
}

/// The ASCII lower case of a text holds no ASCII capital.
pub proof fn law_ascii_lower_case_has_no_capitals(s: Seq<char>)
    ensures
        no_ascii_capitals(text::ascii_lowered(s)),
{
    let t = text::ascii_lowered(s);
    assert forall|i: int| 0 <= i < t.len() implies !('A' <= #[trigger] t[i] && t[i] <= 'Z') by {
        assert(t[i] == text::ascii_lower(s[i]));
    }
}

/// Numbered names differ where their numbers do.
proof fn lemma_numbered_injective(base: Seq<char>, a: nat, b: nat)
    requires
        numbered(base, a) == numbered(base, b),
    ensures
        a == b,
{
    let x = numbered(base, a);
    let y = numbered(base, b);
    let n = base.len() as int + 1;
    assert(x.skip(n) =~= numeral::decimal(a));
    assert(y.skip(n) =~= numeral::decimal(b));
    numeral::lemma_text_injective(a, b, 10);
}

/// Among more numbers than there are names, one makes an unused name.
proof fn lemma_some_number_is_free(names: Set<Seq<char>>, base: Seq<char>)
    requires
        names.finite(),
    ensures
        exists|n: nat| 2 <= n <= names.len() + 2 && !names.contains(#[trigger] numbered(base, n)),
{
    if forall|n: nat| 2 <= n <= names.len() + 2 ==> names.contains(#[trigger] numbered(base, n)) {
        let numbers = vstd::set_lib::set_int_range(2, names.len() as int + 3);
        vstd::set_lib::lemma_int_range(2, names.len() as int + 3);
        let f = |n: int| numbered(base, n as nat);
        let made = numbers.map(f);
        assert forall|a: int, b: int|
            numbers.contains(a) && numbers.contains(b) && #[trigger] f(a) == #[trigger] f(
                b,
            ) implies a == b by {
            lemma_numbered_injective(base, a as nat, b as nat);
        }
        vstd::set_lib::lemma_map_size(numbers, made, f);
        assert(made.subset_of(names)) by {
            assert forall|t: Seq<char>| made.contains(t) implies names.contains(t) by {
                let n = choose|n: int| numbers.contains(n) && f(n) == t;
                assert(t == numbered(base, n as nat));
            }
        }
        vstd::set_lib::lemma_len_subset(made, names);
    }
}

/// There is a least number that makes an unused name, and only one.
pub proof fn lemma_first_free(names: Set<Seq<char>>, base: Seq<char>)
    requires
        names.finite(),
    ensures
        is_first_free(names, base, first_free(names, base)),
        first_free(names, base) <= names.len() + 2,
        forall|n: nat| #[trigger] is_first_free(names, base, n) ==> n == first_free(names, base),
{
    lemma_some_number_is_free(names, base);
    let n = choose|n: nat|
        2 <= n <= names.len() + 2 && !names.contains(#[trigger] numbered(base, n));
    lemma_least_free(names, base, 2, n);
    let least = choose|m: nat| is_first_free(names, base, m) && m <= n;
    assert forall|m: nat| #[trigger] is_first_free(names, base, m) implies m == least by {
        if m < least {
            assert(names.contains(numbered(base, m)));
        } else if least < m {
            assert(names.contains(numbered(base, least)));
        }
    }
    assert(is_first_free(names, base, least));
}

/// Below a number that makes an unused name there is a least one.
proof fn lemma_least_free(names: Set<Seq<char>>, base: Seq<char>, from: nat, n: nat)
    requires
        2 <= from <= n,
        !names.contains(numbered(base, n)),
        forall|k: nat| 2 <= k < from ==> names.contains(#[trigger] numbered(base, k)),
    ensures
        exists|m: nat| is_first_free(names, base, m) && m <= n,
    decreases n - from,
{
    if names.contains(numbered(base, from)) {
        lemma_least_free(names, base, from + 1, n);
    } else {
        assert(is_first_free(names, base, from));
    }
}

/// A name made for a discovered device is unused.
pub proof fn law_device_name_is_unused(
    names: Set<Seq<char>>,
    nickname: Seq<char>,
    model: Seq<char>,
    ip: IpAddr,
)
    requires
        names.finite(),
    ensures
        !names.contains(device_name(names, nickname, model, ip)),
{
    lemma_first_free(names, base_name(nickname, model, ip));
}

/// A name made for a discovered device is valid, whatever the device is called.
pub proof fn law_device_name_is_valid(
    names: Set<Seq<char>>,
    nickname: Seq<char>,
    model: Seq<char>,
    ip: IpAddr,
)
    ensures
        registry::is_valid_name(device_name(names, nickname, model, ip)),
{
    let base = base_name(nickname, model, ip);
    law_slug_shape(nickname);
    law_slug_shape(model);
    reveal_strlit("tapo");
    if slug_name(nickname) is None {
        let front = match slug_name(model) {
            Some(m) => m,
            None => "tapo"@,
        };
        let t = address::ip_text(ip);
        address::lemma_ip_text_chars(ip);
        assert forall|i: int| 0 <= i < base.len() implies registry::is_name_char(
            #[trigger] base[i],
        ) by {
            if i < front.len() {
                assert(base[i] == front[i]);
            } else if i > front.len() {
                assert(base[i] == dashed(t)[i - front.len() - 1]);
                assert(address::is_address_char(t[i - front.len() - 1]));
            }
        }
    }
    let n = first_free(names, base);
    let full = numbered(base, n);
    assert forall|i: int| 0 <= i < full.len() implies registry::is_name_char(#[trigger] full[i]) by {
        if i < base.len() {
            assert(full[i] == base[i]);
        } else if i > base.len() {
            let k = i - base.len() - 1;
            assert(full[i] == numeral::decimal(n)[k]);
            numeral::lemma_text_chars(n, 10, k);
        }
    }
}

/// A name made for a discovered device whose texts are in lower case holds only ASCII small
/// letters, digits and hyphens.
pub proof fn law_device_name_is_small(
    names: Set<Seq<char>>,
    nickname: Seq<char>,
    model: Seq<char>,
    ip: IpAddr,
)
    requires
        no_ascii_capitals(nickname),
        no_ascii_capitals(model),
    ensures
        all_safe_chars(device_name(names, nickname, model, ip)),
{
    let base = base_name(nickname, model, ip);
    law_slugs_are_safe_names(nickname);
    law_slugs_are_safe_names(model);
    reveal_strlit("tapo");
    if slug_name(nickname) is None {
        let front = match slug_name(model) {
            Some(m) => m,
            None => "tapo"@,
        };
        let t = address::ip_text(ip);
        address::lemma_ip_text_chars(ip);
        assert forall|i: int| 0 <= i < base.len() implies is_safe_char(#[trigger] base[i]) by {
            if i < front.len() {
                assert(base[i] == front[i]);
            } else if i > front.len() {
                assert(base[i] == dashed(t)[i - front.len() - 1]);
                assert(address::is_address_char(t[i - front.len() - 1]));
            }
        }
    }
    let n = first_free(names, base);
    let full = numbered(base, n);
    assert forall|i: int| 0 <= i < full.len() implies is_safe_char(#[trigger] full[i]) by {
        if i < base.len() {
            assert(full[i] == base[i]);
        } else if i > base.len() {
            let k = i - base.len() - 1;
            assert(full[i] == numeral::decimal(n)[k]);
            numeral::lemma_text_chars(n, 10, k);
        }
    }
}

/// The words on either side of a separator have one hyphen between them, and none where there is
/// nothing on one side.
pub proof fn law_slug_joins_words(a: Seq<char>, sep: char, b: Seq<char>)
    requires
        sep == ' ' || sep == '_' || sep == '-',
    ensures
        ({
            let s = slug(a + seq![sep] + b);
            &&& slug(a).len() == 0 ==> s == slug(b)
            &&& slug(b).len() == 0 ==> s == slug(a)
            &&& slug(a).len() > 0 && slug(b).len() > 0 ==> s == slug(a) + seq!['-'] + slug(b)
        }),
{
    let front = a + seq![sep];
    let h = hyphenated(a);
    let t = hyphenated(b);
    assert(front.drop_last() =~= a);
    lemma_hyphenated_shape(a);
    lemma_hyphenated_shape(b);
    law_slug_shape(a);
    law_slug_shape(b);
    lemma_hyphenated_after_separator(a, sep, b);
    let whole = hyphenated(front + b);
    if h.len() > 0 {
        assert(hyphenated(front) =~= slug(a) + seq!['-']);
        if t.len() == 0 {
            assert(slug(front + b) =~= slug(a));
        } else {
            assert(slug(front + b) =~= slug(a) + seq!['-'] + slug(b));
        }
    }
}

proof fn lemma_hyphenated_after_separator(a: Seq<char>, sep: char, b: Seq<char>)
    requires
        sep == ' ' || sep == '_' || sep == '-',
    ensures
        ({
            let front = a + seq![sep];
            hyphenated(front + b) == (if hyphenated(a).len() == 0 {
                hyphenated(b)
            } else {
                hyphenated(front) + hyphenated(b)
            })
        }),
        hyphenated(a).len() > 0 ==> hyphenated(a + seq![sep]).len() > 0 && hyphenated(
            a + seq![sep],
        ).last() == '-',
    decreases b.len(),
{
    let front = a + seq![sep];
    assert(front.drop_last() =~= a);
    if b.len() == 0 {
        assert(front + b =~= front);
        assert(hyphenated(front) + hyphenated(b) =~= hyphenated(front));
    } else {
        let init = b.drop_last();
        lemma_hyphenated_after_separator(a, sep, init);
        assert((front + b).drop_last() =~= front + init);
        assert((front + b).last() == b.last());
        if hyphenated(a).len() > 0 {
            assert(hyphenated(front + b) =~= hyphenated(front) + hyphenated(b));
        }
    }
}

/// A character that is neither an ASCII letter or digit nor a separator is left out.
pub proof fn law_slug_leaves_out(a: Seq<char>, c: char, b: Seq<char>)
    requires
        !('0' <= c && c <= '9'),
        !('a' <= c && c <= 'z'),
        !('A' <= c && c <= 'Z'),
        c != ' ',
        c != '_',
        c != '-',
    ensures
        slug(a + seq![c] + b) == slug(a + b),
{
    lemma_hyphenated_leaves_out(a, c, b);
}

proof fn lemma_hyphenated_leaves_out(a: Seq<char>, c: char, b: Seq<char>)
    requires
        !text::is_ascii_alphanumeric(c),
        !is_separator(c),
    ensures
        hyphenated(a + seq![c] + b) == hyphenated(a + b),
    decreases b.len(),
{
    let whole = a + seq![c] + b;
    if b.len() == 0 {
        assert(whole.drop_last() =~= a);
        assert(whole.last() == c);
        assert(a + b =~= a);
    } else {
        let init = b.drop_last();
        lemma_hyphenated_leaves_out(a, c, init);
        assert(whole.drop_last() =~= a + seq![c] + init);
        assert(whole.last() == b.last());
        assert((a + b).drop_last() =~= a + init);
        assert((a + b).last() == b.last());
    }
}

/// A text of ASCII letters and digits alone is its own slug.
pub proof fn law_slug_of_one_word(s: Seq<char>)
    requires
        forall|i: int|
            0 <= i < s.len() ==> ('0' <= #[trigger] s[i] && s[i] <= '9') || ('a' <= s[i] && s[i]
                <= 'z') || ('A' <= s[i] && s[i] <= 'Z'),
    ensures
        slug(s) == s,
{
    assert forall|i: int| 0 <= i < s.len() implies text::is_ascii_alphanumeric(#[trigger] s[i]) by {}
    lemma_hyphenated_fixed(s, s.len() as int);
    assert(s.take(s.len() as int) =~= s);
}

/// A base name that is free is taken as it is, and one that is taken gets a hyphen and the least
/// number from 2 on that makes it free.
pub proof fn law_unused_names(names: Set<Seq<char>>, base: Seq<char>)
    requires
        names.finite(),
    ensures
        !names.contains(base) ==> unused_name(names, base) == base,
        names.contains(base) ==> exists|n: nat|
            n >= 2 && unused_name(names, base) == base + seq!['-'] + #[trigger] numeral::decimal(n)
                && !names.contains(base + seq!['-'] + numeral::decimal(n)) && forall|k: nat|
                2 <= k < n ==> names.contains(base + seq!['-'] + #[trigger] numeral::decimal(k)),
{
    lemma_first_free(names, base);
    let n = first_free(names, base);
    assert forall|k: nat| numbered(base, k) == base + seq!['-'] + #[trigger] numeral::decimal(k) by {
        assert(numbered(base, k) =~= base + seq!['-'] + numeral::decimal(k));
    }
    if names.contains(base) {
        assert(unused_name(names, base) == base + seq!['-'] + numeral::decimal(n));
        assert forall|k: nat| 2 <= k < n implies names.contains(
            base + seq!['-'] + #[trigger] numeral::decimal(k),
        ) by {
            assert(names.contains(numbered(base, k)));
        }
    }
}

/// A device whose nickname holds an ASCII letter or digit is named after the nickname: by its slug,
/// or by the slug with a hyphen and the least number from 2 on where the slug is taken. The letters
/// and digits of the nickname begin those of the name.
pub proof fn law_named_after_nickname(
    names: Set<Seq<char>>,
    nickname: Seq<char>,
    model: Seq<char>,
    ip: IpAddr,
)
    requires
        names.finite(),
        slug(nickname).len() > 0,
    ensures
        ({
            let name = device_name(names, nickname, model, ip);
            let base = slug(nickname);
            &&& !names.contains(base) ==> name == base
            &&& names.contains(base) ==> exists|n: nat|
                n >= 2 && name == base + seq!['-'] + #[trigger] numeral::decimal(n)
                    && !names.contains(name) && forall|k: nat|
                    2 <= k < n ==> names.contains(base + seq!['-'] + #[trigger] numeral::decimal(k))
            &&& base.is_prefix_of(name)
            &&& nickname.filter(|c: char| text::is_ascii_alphanumeric(c)).is_prefix_of(
                name.filter(|c: char| text::is_ascii_alphanumeric(c)),
            )
        }),
{
    let keep = |c: char| text::is_ascii_alphanumeric(c);
    let name = device_name(names, nickname, model, ip);
    let base = slug(nickname);
    law_unused_names(names, base);
    law_slug_keeps_letters(nickname);
    assert(name.take(base.len() as int) =~= base);
    let rest = name.skip(base.len() as int);
    assert(name =~= base + rest);
    Seq::filter_distributes_over_add(base, rest, keep);
    assert(nickname.filter(keep) == base.filter(keep));
}

/// A device whose nickname holds no ASCII letter or digit is named after its model, or `tapo` where
/// that holds none either, and its address with hyphens for points and colons; a number follows
/// where that name is taken.
pub proof fn law_named_after_model(
    names: Set<Seq<char>>,
    nickname: Seq<char>,
    model: Seq<char>,
    ip: IpAddr,
)
    requires
        names.finite(),
        slug(nickname).len() == 0,
    ensures
        ({
            let name = device_name(names, nickname, model, ip);
            let front = if slug(model).len() > 0 {
                slug(model)
            } else {
                "tapo"@
            };
            let base = front + seq!['-'] + dashed(address::ip_text(ip));
            &&& !names.contains(base) ==> name == base
            &&& names.contains(base) ==> exists|n: nat|
                n >= 2 && name == base + seq!['-'] + #[trigger] numeral::decimal(n)
                    && !names.contains(name) && forall|k: nat|
                    2 <= k < n ==> names.contains(base + seq!['-'] + #[trigger] numeral::decimal(k))
        }),
{
    let front = if slug(model).len() > 0 {
        slug(model)
    } else {
        "tapo"@
    };
    let base = front + seq!['-'] + dashed(address::ip_text(ip));
    assert(base_name(nickname, model, ip) =~= base);
    law_unused_names(names, base);
}

/// Points and colons become hyphens, and every other character stays.
pub proof fn law_dashed(s: Seq<char>)
    ensures
        dashed(s).len() == s.len(),
        forall|i: int|
            0 <= i < s.len() ==> #[trigger] dashed(s)[i] == (if s[i] == '.' || s[i] == ':' {
                '-'
            } else {
                s[i]
            }),
{
}

/// The lower case of a text is that of its characters in order.
pub proof fn law_lower_case_goes_by_character(s: Seq<char>, c: char)
    ensures
        lowered(Seq::empty()).len() == 0,
        lowered(s.push(c)) == lowered(s) + lowercase_of(c),
{
    lemma_lowered_push(s, c);
}

// Making names

/// `char::to_lowercase`: the characters that the lower-case mapping of `c` yields. An ASCII
/// character maps to one character, an ASCII capital to its small letter and any other to itself.
/// By the character database no lower-case mapping holds an ASCII capital. What else a character
/// outside ASCII maps to is left unsaid.
#[verifier::external_body]
fn lowercase_mapping(c: char) -> (r: Vec<char>)
    ensures
        r@ == lowercase_of(c),
        c <= '\u{7f}' ==> r@ == seq![text::ascii_lower(c)],
        no_ascii_capitals(r@),
{
    c.to_lowercase().collect()
}

/// The characters of a text in lower case. In ASCII these are the ASCII small letters, and in no
/// text is an ASCII capital left.
pub fn lowered_chars(value: &str) -> (r: Vec<char>)
    ensures
        r@ == lowered(value@),
        no_ascii_capitals(r@),
        all_ascii(value@) ==> r@ == text::ascii_lowered(value@),
{
    let chars = text::chars_of(value);
    let mut out: Vec<char> = Vec::new();
    let mut i: usize = 0;
    while i < chars.len()
        invariant
            i <= chars.len(),
            chars@ == value@,
            out@ == lowered(value@.take(i as int)),
            no_ascii_capitals(out@),
            all_ascii(value@) ==> out@ == text::ascii_lowered(value@.take(i as int)),
        decreases chars.len() - i,
    {
        let ghost before = out@;
        let mut mapped = lowercase_mapping(chars[i]);
        let ghost m = mapped@;
        out.append(&mut mapped);
        proof {
            let p = value@.take(i as int);
            let c = value@[i as int];
            assert(value@.take(i + 1) =~= p.push(c));
            lemma_lowered_push(p, c);
            if all_ascii(value@) {
                assert(text::ascii_lowered(p.push(c)) =~= text::ascii_lowered(p)
                    + seq![text::ascii_lower(c)]);
            }
        }
        i += 1;
    }
    proof {
        assert(value@.take(value@.len() as int) =~= value@);
    }
    out
}

/// The slug of characters that are in lower case already.
pub fn slug_of(chars: &Vec<char>) -> (r: Option<String>)
    ensures
        text::chars_in(r) == slug_name(chars@),
{
    let mut out: Vec<char> = Vec::new();
    let mut previous_was_separator = false;
    let mut i: usize = 0;
    while i < chars.len()
        invariant
            i <= chars.len(),
            out@ == hyphenated(chars@.take(i as int)),
            previous_was_separator == (out@.len() > 0 && out@.last() == '-'),
        decreases chars.len() - i,
    {
        let c = chars[i];
        proof {
            assert(chars@.take(i + 1).drop_last() =~= chars@.take(i as int));
        }
        if text::ascii_alphanumeric(c) {
            out.push(c);
            previous_was_separator = false;
        } else if (c == '-' || c == '_' || c == ' ') && !previous_was_separator && out.len() > 0 {
            out.push('-');
            previous_was_separator = true;
        }
        i += 1;
    }
    proof {
        assert(chars@.take(chars@.len() as int) =~= chars@);
    }
    if previous_was_separator {
        let _ = out.pop();
    }
    if out.len() == 0 {
        None
    } else {
        Some(text::string_of(&out))
    }
}

/// A safe name made of a text, where there is anything in it to make one of: its ASCII letters and
/// digits in lower case, all of them and in order, with hyphens between the words. A safe name is
/// ASCII and is its own safe name.
pub fn sanitise_device_name(value: &str) -> (r: Option<String>)
    ensures
        text::chars_in(r) == slug_name(lowered(value@)),
        all_ascii(value@) ==> text::chars_in(r) == slug_name(text::ascii_lowered(value@)),
        r is None <==> forall|i: int|
            0 <= i < lowered(value@).len() ==> !text::is_ascii_alphanumeric(
                #[trigger] lowered(value@)[i],
            ),
        r matches Some(s) ==> {
            &&& is_safe_name(s@)
            &&& s@.filter(|c: char| text::is_ascii_alphanumeric(c)) == lowered(value@).filter(
                |c: char| text::is_ascii_alphanumeric(c),
            )
            &&& all_ascii(s@)
            &&& slug_name(text::ascii_lowered(s@)) == Some(s@)
        },
{
    let chars = lowered_chars(value);
    proof {
        law_slug_exists(lowered(value@));
        law_slug_keeps_letters(lowered(value@));
        law_slugs_are_safe_names(lowered(value@));
    }
    slug_of(&chars)
}

/// The name of a device without a usable nickname, whose model is in lower case already.
fn fallback_device_name(model: &Vec<char>, ip: IpAddr) -> (r: String)
    ensures
        r@ == fallback_name(model@, ip),
{
    let mut out = match slug_of(model) {
        Some(m) => m,
        None => "tapo".to_owned(),
    };
    out.push('-');
    let ghost front = out@;
    let chars = text::chars_of(&ip.to_string());
    let mut i: usize = 0;
    while i < chars.len()
        invariant
            i <= chars.len(),
            chars@ == address::ip_text(ip),
            out@ == front + dashed(chars@).take(i as int),
        decreases chars.len() - i,
    {
        let c = chars[i];
        out.push(
            if c == '.' || c == ':' {
                '-'
            } else {
                c
            },
        );
        i += 1;
        proof {
            assert(out@ =~= front + dashed(chars@).take(i as int));
        }
    }
    proof {
        assert(dashed(chars@).take(chars@.len() as int) =~= dashed(chars@));
    }
    out
}

/// The base name, or where it is taken the base name with the least number from 2 on that makes it
/// unused.
pub fn unique_device_name(config: &Config, base_name: &str) -> (r: String)
    ensures
        r@ == unused_name(config@.devices.dom(), base_name@),
{
    let ghost names = config@.devices.dom();
    if !config.devices.contains_key(base_name) {
        return base_name.to_owned();
    }
    let count = config.devices.len();
    proof {
        lemma_first_free(names, base_name@);
    }
    let mut suffix: u128 = 2;
    loop
        invariant
            names == config@.devices.dom(),
            names.finite(),
            names.len() == count,
            names.contains(base_name@),
            is_first_free(names, base_name@, first_free(names, base_name@)),
            first_free(names, base_name@) <= count + 2,
            2 <= suffix <= first_free(names, base_name@),
        decreases count + 2 - suffix,
    {
        let mut candidate = base_name.to_owned();
        candidate.push('-');
        numeral::push_number(&mut candidate, suffix, 10);
        if !config.devices.contains_key(&candidate) {
            proof {
                if suffix < first_free(names, base_name@) {
                    assert(names.contains(numbered(base_name@, suffix as nat)));
                }
            }
            return candidate;
        }
        suffix += 1;
    }
}

/// The name for a device whose nickname and model are in lower case already.
pub fn name_from_lowered(
    config: &Config,
    nickname: &Vec<char>,
    model: &Vec<char>,
    ip: IpAddr,
) -> (r: String)
    ensures
        r@ == device_name(config@.devices.dom(), nickname@, model@, ip),
{
    let base = match slug_of(nickname) {
        Some(n) => n,
        None => fallback_device_name(model, ip),
    };
    unique_device_name(config, &base)
}

/// A safe, unused name for a discovered device, after its nickname or else its model and address.
pub fn discovered_device_name(config: &Config, nickname: &str, model: &str, ip: IpAddr) -> (r:
    String)
    ensures
        r@ == device_name(config@.devices.dom(), lowered(nickname@), lowered(model@), ip),
        all_ascii(nickname@) && all_ascii(model@) ==> r@ == device_name(
            config@.devices.dom(),
            text::ascii_lowered(nickname@),
            text::ascii_lowered(model@),
            ip,
        ),
        registry::is_valid_name(r@),
        all_safe_chars(r@),
        !config@.devices.contains_key(r@),
        slug(lowered(nickname@)).len() > 0 ==> slug(lowered(nickname@)).is_prefix_of(r@),
        slug(lowered(nickname@)).len() > 0 && !config@.devices.contains_key(
            slug(lowered(nickname@)),
        ) ==> r@ == slug(lowered(nickname@)),
        slug(lowered(nickname@)).len() > 0 && config@.devices.contains_key(
            slug(lowered(nickname@)),
        ) ==> exists|n: nat|
            n >= 2 && r@ == slug(lowered(nickname@)) + seq!['-'] + #[trigger] numeral::decimal(n),
{
    let nickname = lowered_chars(nickname);
    let model = lowered_chars(model);
    proof {
        config.devices.lemma_finite();
        law_device_name_is_valid(config@.devices.dom(), nickname@, model@, ip);
        law_device_name_is_small(config@.devices.dom(), nickname@, model@, ip);
        if slug(nickname@).len() > 0 {
            law_named_after_nickname(config@.devices.dom(), nickname@, model@, ip);
        }
        law_device_name_is_unused(config@.devices.dom(), nickname@, model@, ip);
    }
    name_from_lowered(config, &nickname, &model, ip)
}

} // verus!
