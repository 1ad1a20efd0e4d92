//! Update check: reading the release tag out of the GitHub "latest release"
//! response and comparing it with the running version.

use vstd::prelude::*;
use vstd::utf8::{decode_utf8, valid_utf8};
use vstd::string::StrSliceExecFns;
use crate::text::{
    all_digits, chars_of, is_white_space, lemma_find_from_finds_first, occurs_at, digit, digits_greater, digits_value, find_chars, find_from, is_digit,
    lemma_lex_decided_by_prefix, lex_greater, lex_greater_from, skip_white_space, skip_ws_from, tail_from,
};

verus! {

/// Upper bound of the response body that is read, in bytes.
pub const MAX_BODY_BYTES: usize = 524288;
/// Size of the buffer that each read fills.
pub const READ_CHUNK_BYTES: usize = 8192;

/// What started a check; it decides which results are shown.
#[derive(Clone, Copy, Debug, PartialEq, Eq)]
pub enum Trigger {
    /// Chosen from the menu: every result is shown.
    Manual,
    /// Run at start-up: only an available update is shown.
    Startup,
}

/// The result of a check.
#[derive(Clone, Debug, PartialEq, Eq)]
pub enum Outcome {
    /// A newer release exists; its tag, such as "v2026.07.04".
    UpdateAvailable(String),
    /// The running version is the latest; the latest tag.
    UpToDate(String),
    /// The request or the response failed.
    Failed,
}

/// A finished check, handed from the worker to the tray window.
#[derive(Clone, Debug, PartialEq, Eq)]
pub struct CheckResult {
    pub trigger: Trigger,
    pub outcome: Outcome,
}

/// The characters `"tag_name"`, quotes included.
pub open spec fn tag_key() -> Seq<char> {
    seq!['"', 't', 'a', 'g', '_', 'n', 'a', 'm', 'e', '"']
}

/// The value of the first `"tag_name"` field of a JSON text: after the key,
/// optional white space, a colon, optional white space and a double quote,
/// the characters up to the next double quote.
pub open spec fn tag_name_of(body: Seq<char>) -> Option<Seq<char>> {
    match find_from(body, tag_key(), 0) {
        None => None,
        Some(i) => {
            let p = skip_ws_from(body, i + tag_key().len());
            if p < body.len() && body[p] == ':' {
                let q = skip_ws_from(body, p + 1);
                if q < body.len() && body[q] == '"' {
                    match find_from(body, seq!['"'], q + 1) {
                        None => None,
                        Some(e) => Some(body.subrange(q + 1, e)),
                    }
                } else {
                    None
                }
            } else {
                None
            }
        }
    }
}

/// The tag is read wherever its key stands in the body: after any text
/// that holds no `"tag_name"` key of its own, the field
/// `"tag_name":"<t>"` gives `t`, whatever follows it.
pub proof fn lemma_tag_found_anywhere(prefix: Seq<char>, t: Seq<char>, rest: Seq<char>)
    requires
        forall|j: int|
            0 <= j < prefix.len() ==> !occurs_at(
                prefix + seq!['"', 't', 'a', 'g', '_', 'n', 'a', 'm', 'e', '"'] + seq![':', '"'] + t + seq!['"'] + rest,
                seq!['"', 't', 'a', 'g', '_', 'n', 'a', 'm', 'e', '"'],
                j,
            ),
        forall|k: int| 0 <= k < t.len() ==> t[k] != '"',
    ensures
        tag_name_of(prefix + seq!['"', 't', 'a', 'g', '_', 'n', 'a', 'm', 'e', '"'] + seq![':', '"'] + t + seq!['"'] + rest) == Some(t),
{
    assert(tag_key() =~= seq!['"', 't', 'a', 'g', '_', 'n', 'a', 'm', 'e', '"']);
    let mid = tag_key() + seq![':', '"'] + t + seq!['"'] + rest;
    let body = prefix + mid;
    assert(body =~= prefix + tag_key() + seq![':', '"'] + t + seq!['"'] + rest);
    let i = prefix.len() as int;
    assert(forall|k: int| 0 <= k < mid.len() ==> body[i + k] == mid[k]);
    assert(mid[10] == ':' && mid[11] == '"' && mid[12 + t.len() as int] == '"') by {
        assert(mid[10] == (tag_key() + seq![':', '"'])[10]);
        assert(mid[11] == (tag_key() + seq![':', '"'])[11]);
        assert(mid[12 + t.len() as int] == (tag_key() + seq![':', '"'] + t + seq!['"'])[12 + t.len() as int]);
    }
    assert(forall|k: int| 0 <= k < t.len() ==> mid[12 + k] == t[k]) by {
        assert forall|k: int| 0 <= k < t.len() implies mid[12 + k] == t[k] by {
            assert(mid[12 + k] == (tag_key() + seq![':', '"'] + t)[12 + k]);
        }
    }
    assert(occurs_at(body, tag_key(), i)) by {
        assert forall|k: int| 0 <= k < 10 implies mid[k] == tag_key()[k] by {
            assert(mid[k] == (tag_key() + seq![':', '"'])[k]);
        }
        assert(body.subrange(i, i + 10) =~= tag_key());
    }
    lemma_find_from_finds_first(body, tag_key(), 0, i);
    let q = i + 11;
    let e = q + 1 + t.len();
    assert(skip_ws_from(body, i + 10) == i + 10);
    assert(skip_ws_from(body, q) == q);
    assert(occurs_at(body, seq!['"'], e)) by {
        assert(body.subrange(e, e + 1) =~= seq!['"']);
    }
    assert forall|j: int| q + 1 <= j < e implies !occurs_at(body, seq!['"'], j) by {
        assert(body[j] == t[j - q - 1]);
        assert(body.subrange(j, j + 1)[0] == body[j]);
    }
    lemma_find_from_finds_first(body, seq!['"'], q + 1, e);
    assert(body.subrange(q + 1, e) =~= t);
}

/// A body without the key `"tag_name"` anywhere has no tag.
pub proof fn lemma_no_key_no_tag(body: Seq<char>)
    requires
        forall|j: int|
            0 <= j ==> !occurs_at(
                body,
                seq!['"', 't', 'a', 'g', '_', 'n', 'a', 'm', 'e', '"'],
                j,
            ),
    ensures
        tag_name_of(body) is None,
{
    assert(tag_key() =~= seq!['"', 't', 'a', 'g', '_', 'n', 'a', 'm', 'e', '"']);
    crate::text::lemma_find_from_is_first(body, tag_key(), 0);
}

/// White space may stand around the colon: after any text without a key of
/// its own, `"tag_name"<ws>:<ws>"<t>"` gives `t` for any runs of white space.
pub proof fn lemma_tag_allows_white_space(
    prefix: Seq<char>,
    ws1: Seq<char>,
    ws2: Seq<char>,
    t: Seq<char>,
    rest: Seq<char>,
)
    requires
        forall|j: int|
            0 <= j < prefix.len() ==> !occurs_at(
                prefix + seq!['"', 't', 'a', 'g', '_', 'n', 'a', 'm', 'e', '"'] + ws1 + seq![':']
                    + ws2 + seq!['"'] + t + seq!['"'] + rest,
                seq!['"', 't', 'a', 'g', '_', 'n', 'a', 'm', 'e', '"'],
                j,
            ),
        forall|k: int| 0 <= k < ws1.len() ==> is_white_space(#[trigger] ws1[k]),
        forall|k: int| 0 <= k < ws2.len() ==> is_white_space(#[trigger] ws2[k]),
        forall|k: int| 0 <= k < t.len() ==> t[k] != '"',
    ensures
        tag_name_of(
            prefix + seq!['"', 't', 'a', 'g', '_', 'n', 'a', 'm', 'e', '"'] + ws1 + seq![':']
                + ws2 + seq!['"'] + t + seq!['"'] + rest,
        ) == Some(t),
{
    assert(tag_key() =~= seq!['"', 't', 'a', 'g', '_', 'n', 'a', 'm', 'e', '"']);
    let mid = tag_key() + ws1 + seq![':'] + ws2 + seq!['"'] + t + seq!['"'] + rest;
    let body = prefix + mid;
    assert(body =~= prefix + seq!['"', 't', 'a', 'g', '_', 'n', 'a', 'm', 'e', '"'] + ws1
        + seq![':'] + ws2 + seq!['"'] + t + seq!['"'] + rest);
    let i = prefix.len() as int;
    let a: int = 10 + ws1.len() as int;
    let b: int = a + 1 + ws2.len();
    let e: int = b + 1 + t.len();
    assert(forall|k: int| 0 <= k < mid.len() ==> body[i + k] == mid[k]);
    assert(mid[a] == ':' && mid[b] == '"' && mid[e] == '"') by {
        assert(mid[a] == (tag_key() + ws1 + seq![':'])[a]);
        assert(mid[b] == (tag_key() + ws1 + seq![':'] + ws2 + seq!['"'])[b]);
        assert(mid[e] == (tag_key() + ws1 + seq![':'] + ws2 + seq!['"'] + t + seq!['"'])[e]);
    }
    assert forall|k: int| 0 <= k < ws1.len() implies is_white_space(#[trigger] body[i + 10 + k]) by {
        assert(mid[10 + k] == (tag_key() + ws1)[10 + k]);
        assert(body[i + 10 + k] == mid[10 + k]);
    }
    assert forall|k: int| 0 <= k < ws2.len() implies is_white_space(#[trigger] body[i + a + 1 + k]) by {
        assert(mid[a + 1 + k] == (tag_key() + ws1 + seq![':'] + ws2)[a + 1 + k]);
        assert(body[i + a + 1 + k] == mid[a + 1 + k]);
    }
    assert forall|k: int| 0 <= k < t.len() implies #[trigger] body[i + b + 1 + k] == t[k] by {
        assert(mid[b + 1 + k] == (tag_key() + ws1 + seq![':'] + ws2 + seq!['"'] + t)[b + 1 + k]);
        assert(body[i + b + 1 + k] == mid[b + 1 + k]);
    }
    assert(occurs_at(body, tag_key(), i)) by {
        assert forall|k: int| 0 <= k < 10 implies mid[k] == tag_key()[k] by {
            assert(mid[k] == (tag_key() + ws1)[k]);
        }
        assert(body.subrange(i, i + 10) =~= tag_key());
    }
    lemma_find_from_finds_first(body, tag_key(), 0, i);
    crate::text::lemma_skip_ws_from_stops_at_text(body, i + 10);
    let p1 = skip_ws_from(body, i + 10);
    if p1 < i + a {
        assert(is_white_space(body[i + 10 + (p1 - i - 10)]));
    }
    if p1 > i + a {
        assert(is_white_space(body[i + a]));
    }
    assert(p1 == i + a);
    crate::text::lemma_skip_ws_from_stops_at_text(body, i + a + 1);
    let q = skip_ws_from(body, i + a + 1);
    if q < i + b {
        assert(is_white_space(body[i + a + 1 + (q - i - a - 1)]));
    }
    if q > i + b {
        assert(is_white_space(body[i + b]));
    }
    assert(q == i + b);
    assert(occurs_at(body, seq!['"'], i + e)) by {
        assert(body.subrange(i + e, i + e + 1) =~= seq!['"']);
    }
    assert forall|j: int| i + b + 1 <= j < i + e implies !occurs_at(body, seq!['"'], j) by {
        assert(body[i + b + 1 + (j - i - b - 1)] == t[j - i - b - 1]);
        assert(body.subrange(j, j + 1)[0] == body[j]);
    }
    lemma_find_from_finds_first(body, seq!['"'], i + b + 1, i + e);
    assert(body.subrange(i + b + 1, i + e) =~= t);
}

/// The outcome of a check follows the tag read from the body: `Failed`
/// exactly when there is none; otherwise it carries that tag, and reports an
/// update exactly when the tag names a newer release.
pub proof fn lemma_outcome_follows_tag(o: Outcome, body: Seq<char>, current: Seq<char>)
    requires
        outcome_matches(o, body, current),
    ensures
        o is Failed <==> tag_name_of(body) is None,
        tag_name_of(body) matches Some(t) ==> match o {
            Outcome::UpdateAvailable(x) => x@ == t && is_newer(t, current),
            Outcome::UpToDate(x) => x@ == t && !is_newer(t, current),
            Outcome::Failed => false,
        },
{
}

/// A tag of a later day than the running version, wherever it stands in the
/// body, is reported as an available update.
pub proof fn lemma_later_release_reported(
    o: Outcome,
    prefix: Seq<char>,
    latest: Seq<char>,
    rest: Seq<char>,
    current: Seq<char>,
)
    requires
        forall|j: int|
            0 <= j < prefix.len() ==> !occurs_at(
                prefix + seq!['"', 't', 'a', 'g', '_', 'n', 'a', 'm', 'e', '"'] + seq![':', '"'] + (
                seq!['v'] + latest) + seq!['"'] + rest,
                seq!['"', 't', 'a', 'g', '_', 'n', 'a', 'm', 'e', '"'],
                j,
            ),
        is_release_version(latest),
        is_release_version(current),
        date_key(latest.take(10)) > date_key(current.take(10)),
        outcome_matches(
            o,
            prefix + seq!['"', 't', 'a', 'g', '_', 'n', 'a', 'm', 'e', '"'] + seq![':', '"'] + (
            seq!['v'] + latest) + seq!['"'] + rest,
            current,
        ),
    ensures
        o matches Outcome::UpdateAvailable(x) && x@ == seq!['v'] + latest,
{
    let t = seq!['v'] + latest;
    assert forall|k: int| 0 <= k < t.len() implies t[k] != '"' by {
        if k > 0 {
            assert(t[k] == latest[k - 1]);
            if k - 1 < 10 {
                assert(latest.take(10)[k - 1] == latest[k - 1]);
            } else if k - 1 > 10 {
                assert(latest.skip(11)[k - 12] == latest[k - 1]);
            }
        }
    }
    lemma_tag_found_anywhere(prefix, t, rest);
    lemma_later_day_is_newer(latest, current);
}

/// A tag without its leading `v`, if it has one.
pub open spec fn strip_v(tag: Seq<char>) -> Seq<char> {
    if tag.len() > 0 && tag[0] == 'v' {
        tag.drop_first()
    } else {
        tag
    }
}

/// `s` is a date version `YYYY.MM.DD`, zero-padded.
pub open spec fn is_date_version(s: Seq<char>) -> bool {
    &&& s.len() == 10
    &&& s[4] == '.'
    &&& s[7] == '.'
    &&& is_digit(s[0]) && is_digit(s[1]) && is_digit(s[2]) && is_digit(s[3])
    &&& is_digit(s[5]) && is_digit(s[6]) && is_digit(s[8]) && is_digit(s[9])
}

/// The year, month and day of a date version as one number `YYYYMMDD`, so
/// that later dates are greater.
pub open spec fn date_key(s: Seq<char>) -> int {
    (1000 * digit(s[0]) + 100 * digit(s[1]) + 10 * digit(s[2]) + digit(s[3])) * 10000 + (10
        * digit(s[5]) + digit(s[6])) * 100 + 10 * digit(s[8]) + digit(s[9])
}

/// `s` is a release version: a date version, optionally followed by `.`
/// and a same-day re-release counter of one or more digits.
pub open spec fn is_release_version(s: Seq<char>) -> bool {
    &&& s.len() >= 10
    &&& is_date_version(s.take(10))
    &&& (s.len() == 10 || (s.len() > 11 && s[10] == '.' && all_digits(s.skip(11))))
}

/// The re-release counter of a release version, if it has one.
pub open spec fn release_counter(s: Seq<char>) -> Option<int> {
    if s.len() == 10 {
        None
    } else {
        Some(digits_value(s.skip(11)))
    }
}

/// Of two release versions of the same day, the first is the later one: it
/// has a counter and the other has none, or both have one and its counter is
/// the greater number.
pub open spec fn later_same_day(a: Seq<char>, b: Seq<char>) -> bool {
    match (release_counter(a), release_counter(b)) {
        (Some(x), Some(y)) => x > y,
        (Some(_), None) => true,
        _ => false,
    }
}

/// A tag names a newer release than `current` when, without its leading
/// `v`: for two release versions of the same day, its re-release counter is
/// later (counters compare as numbers, and any counter is later than none);
/// otherwise, it comes after `current` in string order (date versions padded
/// with zeros sort by date).
pub open spec fn is_newer(tag: Seq<char>, current: Seq<char>) -> bool {
    version_later(strip_v(tag), current)
}

/// The version `latest` (without `v`) is later than `current`.
pub open spec fn version_later(latest: Seq<char>, current: Seq<char>) -> bool {
    if is_release_version(latest) && is_release_version(current) && latest.take(10)
        == current.take(10) {
        later_same_day(latest, current)
    } else {
        lex_greater(latest, current)
    }
}

/// The outcome for a response body, by its tag and the running version.
pub open spec fn outcome_matches(o: Outcome, body: Seq<char>, current: Seq<char>) -> bool {
    match tag_name_of(body) {
        None => o == Outcome::Failed,
        Some(tag) => if is_newer(tag, current) {
            o matches Outcome::UpdateAvailable(t) && t@ == tag
        } else {
            o matches Outcome::UpToDate(t) && t@ == tag
        },
    }
}

/// The value of the `"tag_name"` field of a release response, or `None`
/// when the body does not have that shape.
pub fn parse_tag_name(body: &str) -> (res: Option<String>)
    ensures
        match res {
            Some(t) => tag_name_of(body@) == Some(t@),
            None => tag_name_of(body@) is None,
        },
{
    let chars = chars_of(body);
    let key: Vec<char> = vec!['"', 't', 'a', 'g', '_', 'n', 'a', 'm', 'e', '"'];
    assert(key@ =~= tag_key());
    let i = match find_chars(&chars, &key, 0) {
        Some(i) => i,
        None => {
            return None;
        },
    };
    proof {
        crate::text::lemma_find_from_is_first(chars@, key@, 0);
    }
    let p = skip_white_space(&chars, i + key.len());
    if p >= chars.len() || chars[p] != ':' {
        return None;
    }
    let q = skip_white_space(&chars, p + 1);
    if q >= chars.len() || chars[q] != '"' {
        return None;
    }
    let quote: Vec<char> = vec!['"'];
    assert(quote@ =~= seq!['"']);
    match find_chars(&chars, &quote, q + 1) {
        None => None,
        Some(e) => {
            proof {
                crate::text::lemma_find_from_is_first(chars@, quote@, q + 1);
            }
            let value = body.substring_char(q + 1, e);
            Some(String::from_str(value))
        },
    }
}

/// Reads the release tag out of a response body and compares it with the
/// running version `current`: `Failed` without a tag, `UpdateAvailable`
/// when the tag names a newer release (`is_newer`: same-day re-release
/// counters compare as numbers, other versions in string order), else
/// `UpToDate`.
pub fn parse_and_compare(body: &str, current: &str) -> (o: Outcome)
    ensures
        outcome_matches(o, body@, current@),
{
    let tag = match parse_tag_name(body) {
        Some(t) => t,
        None => {
            return Outcome::Failed;
        },
    };
    let tag_chars = chars_of(tag.as_str());
    let cur_chars = chars_of(current);
    let from: usize = if tag_chars.len() > 0 && tag_chars[0] == 'v' {
        1
    } else {
        0
    };
    let latest = tail_from(&tag_chars, from);
    assert(latest@ =~= strip_v(tag@));
    proof {
        assert(latest@.skip(0) =~= latest@);
    }
    if version_newer(&latest, &cur_chars) {
        Outcome::UpdateAvailable(tag)
    } else {
        Outcome::UpToDate(tag)
    }
}

/// Whether `s` is a release version.
fn release_form(s: &Vec<char>) -> (b: bool)
    ensures
        b == is_release_version(s@),
{
    if s.len() < 10 {
        return false;
    }
    let dated = s[4] == '.' && s[7] == '.' && '0' <= s[0] && s[0] <= '9' && '0' <= s[1] && s[1]
        <= '9' && '0' <= s[2] && s[2] <= '9' && '0' <= s[3] && s[3] <= '9' && '0' <= s[5] && s[5]
        <= '9' && '0' <= s[6] && s[6] <= '9' && '0' <= s[8] && s[8] <= '9' && '0' <= s[9] && s[9]
        <= '9';
    assert(dated == is_date_version(s@.take(10)));
    if !dated {
        return false;
    }
    if s.len() == 10 {
        return true;
    }
    if s.len() == 11 || s[10] != '.' {
        return false;
    }
    let mut i: usize = 11;
    while i < s.len()
        invariant
            11 <= i <= s.len(),
            forall|t: int| 11 <= t < i ==> is_digit(#[trigger] s@[t]),
        decreases s.len() - i,
    {
        if !('0' <= s[i] && s[i] <= '9') {
            assert(!is_digit(s@.skip(11)[i - 11]));
            return false;
        }
        i = i + 1;
    }
    assert forall|t: int| 0 <= t < s@.skip(11).len() implies is_digit(#[trigger] s@.skip(11)[t]) by {
        assert(s@.skip(11)[t] == s@[t + 11]);
    }
    true
}

/// Whether the version `latest` (already without its `v`) is newer than
/// `current`.
fn version_newer(latest: &Vec<char>, current: &Vec<char>) -> (b: bool)
    ensures
        b == version_later(latest@, current@),
{
    if release_form(latest) && release_form(current) {
        let mut same_day = true;
        let mut i: usize = 0;
        assert(latest@.take(0) =~= current@.take(0));
        while i < 10
            invariant
                i <= 10 <= latest.len(),
                10 <= current.len(),
                same_day == (latest@.take(i as int) == current@.take(i as int)),
            decreases 10 - i,
        {
            if latest[i] != current[i] {
                assert(latest@.take(i + 1)[i as int] != current@.take(i + 1)[i as int]);
                same_day = false;
            } else if same_day {
                assert(latest@.take(i + 1) =~= current@.take(i + 1));
            } else {
                assert(latest@.take(i + 1).take(i as int) =~= latest@.take(i as int));
                assert(current@.take(i + 1).take(i as int) =~= current@.take(i as int));
            }
            i = i + 1;
        }
        if same_day {
            if latest.len() == 10 {
                return false;
            }
            if current.len() == 10 {
                return true;
            }
            let a = tail_from(latest, 11);
            let c = tail_from(current, 11);
            return digits_greater(&a, &c);
        }
    }
    assert(latest@.skip(0) =~= latest@);
    lex_greater_from(latest, 0, current)
}

/// A release tagged with the running version (`v` and the version) is not
/// newer: the check reports "up to date".
pub proof fn lemma_same_version_not_newer(current: Seq<char>)
    ensures
        !is_newer(seq!['v'] + current, current),
{
    assert((seq!['v'] + current).drop_first() =~= current);
    lemma_not_greater_self(current);
}

proof fn lemma_not_greater_self(a: Seq<char>)
    ensures
        !lex_greater(a, a),
    decreases a.len(),
{
    if a.len() > 0 {
        lemma_not_greater_self(a.drop_first());
    }
}

/// For zero-padded date versions, string order is date order: a release
/// tagged `v` and a later date than the running version is newer, and one
/// with the same or an earlier date is not.
pub proof fn lemma_date_order(latest: Seq<char>, current: Seq<char>)
    requires
        is_date_version(latest),
        is_date_version(current),
    ensures
        is_newer(seq!['v'] + latest, current) <==> date_key(latest) > date_key(current),
{
    assert((seq!['v'] + latest).drop_first() =~= latest);
    assert(latest.take(10) =~= latest);
    assert(current.take(10) =~= current);
    lemma_date_lex(latest, current);
}

proof fn lemma_date_lex(x: Seq<char>, y: Seq<char>)
    requires
        is_date_version(x),
        is_date_version(y),
    ensures
        lex_greater(x, y) <==> date_key(x) > date_key(y),
{
    reveal_with_fuel(lex_greater, 11);
}

/// Of two release versions of different days, the later day is the newer
/// release, whatever re-release counters either carries.
pub proof fn lemma_later_day_is_newer(latest: Seq<char>, current: Seq<char>)
    requires
        is_release_version(latest),
        is_release_version(current),
        date_key(latest.take(10)) != date_key(current.take(10)),
    ensures
        is_newer(seq!['v'] + latest, current) <==> date_key(latest.take(10)) > date_key(
            current.take(10),
        ),
{
    assert((seq!['v'] + latest).drop_first() =~= latest);
    assert(latest.take(10) != current.take(10));
    lemma_lex_decided_by_prefix(latest, current, 10);
    lemma_date_lex(latest.take(10), current.take(10));
}

/// Of two release versions of the same day, the re-release counters decide,
/// as numbers: a greater counter is newer, a counter is newer than none, and
/// a plain date is never newer.
pub proof fn lemma_same_day_counters(latest: Seq<char>, current: Seq<char>)
    requires
        is_release_version(latest),
        is_release_version(current),
        latest.take(10) == current.take(10),
    ensures
        latest.len() > 10 && current.len() > 10 ==> (is_newer(seq!['v'] + latest, current)
            <==> digits_value(latest.skip(11)) > digits_value(current.skip(11))),
        latest.len() > 10 && current.len() == 10 ==> is_newer(seq!['v'] + latest, current),
        latest.len() == 10 ==> !is_newer(seq!['v'] + latest, current),
{
    assert((seq!['v'] + latest).drop_first() =~= latest);
}

/// Same-day re-releases: of two release versions of the same day, the
/// tag is newer exactly when its re-release counter is the greater number,
/// or it has a counter and the running version has none (so `.10` comes
/// after `.9`).
pub proof fn lemma_rerelease_order(latest: Seq<char>, current: Seq<char>)
    requires
        is_release_version(latest),
        is_release_version(current),
        latest.take(10) == current.take(10),
    ensures
        is_newer(seq!['v'] + latest, current) == later_same_day(latest, current),
{
    assert((seq!['v'] + latest).drop_first() =~= latest);
}

/// A re-release tagged with the running date and a counter (such as
/// `v2026.07.04.1`) is newer than the plain date version.
pub proof fn lemma_rerelease_after_plain(date: Seq<char>, counter: Seq<char>)
    requires
        is_date_version(date),
        counter.len() > 0,
        all_digits(counter),
    ensures
        is_newer(seq!['v'] + date + seq!['.'] + counter, date),
{
    let latest = date + seq!['.'] + counter;
    assert((seq!['v'] + date + seq!['.'] + counter).drop_first() =~= latest);
    assert(latest.take(10) =~= date);
    assert(date.take(10) =~= date);
    assert(latest.skip(11) =~= counter);
}

/// `String::from_utf8`: the bytes as a string when they are valid UTF-8.
/// Claimed: `Some` exactly for valid UTF-8, holding the decoded characters.
#[verifier::external_body]
fn utf8_string(bytes: Vec<u8>) -> (res: Option<String>)
    ensures
        res is Some <==> valid_utf8(bytes@),
        res matches Some(s) ==> s@ == decode_utf8(bytes@),
{
    String::from_utf8(bytes).ok()
}

/// The outcome for a whole response body as bytes: `Failed` unless it is
/// valid UTF-8, else as `parse_and_compare` decides on its text.
pub fn body_outcome(body: Vec<u8>, current: &str) -> (o: Outcome)
    ensures
        !valid_utf8(body@) ==> o == Outcome::Failed,
        valid_utf8(body@) ==> outcome_matches(o, decode_utf8(body@), current@),
{
    match utf8_string(body) {
        None => Outcome::Failed,
        Some(text) => parse_and_compare(text.as_str(), current),
    }
}

/// A response is accepted when the status query succeeded and the status is
/// 200; rate limits (403, 429) and every other status fail the check.
pub fn response_accepted(query_ok: bool, status: u32) -> (b: bool)
    ensures
        b == (query_ok && status == 200),
{
    query_ok && status == 200
}

/// How many bytes to ask for when `available` bytes are waiting: no more
/// than the read buffer holds.
pub fn read_request_len(available: u32) -> (n: u32)
    ensures
        n == (if available as int <= READ_CHUNK_BYTES { available as int } else {
            READ_CHUNK_BYTES as int
        }),
{
    if (available as usize) <= READ_CHUNK_BYTES {
        available
    } else {
        READ_CHUNK_BYTES as u32
    }
}

/// Takes one read into the body: nothing when `read` is 0 (the response is
/// over); else the first `read` bytes of `chunk` (no more than it holds).
/// Returns whether to read on: the read gave bytes and the body is still
/// under `MAX_BODY_BYTES`.
pub fn take_chunk(body: &mut Vec<u8>, chunk: &[u8], read: u32) -> (more: bool)
    ensures
        read == 0 ==> final(body)@ == old(body)@ && !more,
        read != 0 ==> {
            let n = if read as int <= chunk@.len() { read as int } else { chunk@.len() as int };
            &&& final(body)@ == old(body)@ + chunk@.take(n)
            &&& more == (final(body)@.len() < MAX_BODY_BYTES)
        },
{
    if read == 0 {
        return false;
    }
    let n: usize = if (read as usize) <= chunk.len() {
        read as usize
    } else {
        chunk.len()
    };
    let ghost before = body@;
    let mut i: usize = 0;
    while i < n
        invariant
            i <= n <= chunk.len(),
            body@ == before + chunk@.take(i as int),
        decreases n - i,
    {
        body.push(chunk[i]);
        assert(chunk@.take(i + 1) =~= chunk@.take(i as int).push(chunk@[i as int]));
        i = i + 1;
    }
    body.len() < MAX_BODY_BYTES
}

/// Whether a request to start a check goes ahead, given whether one is in
/// flight.
pub open spec fn begins(busy: bool) -> bool {
    !busy
}

/// At most one check runs at a time: once a check has started, further
/// requests are dropped until it has finished; after it has finished, the
/// next request starts a check.
pub proof fn lemma_one_check_at_a_time()
    ensures
        !begins(true),
        begins(false),
{
}

/// The guard that keeps at most one check running: a check may start only
/// while no other is in flight.
#[derive(Debug)]
pub struct CheckGuard {
    pub busy: bool,
}

impl CheckGuard {
    pub fn new() -> (g: CheckGuard)
        ensures
            !g.busy,
    {
        CheckGuard { busy: false }
    }

    /// Takes the guard: `true` when it was free (the caller goes on with its
    /// request), `false` when it was taken (the request is dropped). Either
    /// way the guard is taken afterwards.
    pub fn try_begin(&mut self) -> (started: bool)
        ensures
            started == begins(old(self).busy),
            final(self).busy,
    {
        let started = !self.busy;
        self.busy = true;
        started
    }

    /// Frees the guard once the request has ended, with any outcome.
    pub fn finish(&mut self)
        ensures
            !final(self).busy,
    {
        self.busy = false;
    }
}

} // verus!
