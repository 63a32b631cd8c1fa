//! Turning clipboard text into a clip: blank text is skipped, the content
//! is hashed (BLAKE3, lower-case hex), and text whose hash equals the last
//! one seen is skipped, so polling the same clipboard twice records it once.
use vstd::prelude::*;
use vstd::utf8::encode_utf8;

use crate::db::ClipEntry;
use crate::text::{chars_of, string_of, trim, trim_chars};

verus! {

/// The BLAKE3 digest of `data`.
pub uninterp spec fn blake3_digest(data: Seq<u8>) -> Seq<u8>;

/// Calls `blake3::hash` (which the crate documents as the same as
/// `Hasher::new().update(data).finalize()`) and returns the 32 bytes of the
/// resulting `blake3::Hash`. The contract claims that the result is the
/// BLAKE3 digest of the bytes, a function of them alone, and that it is 32
/// bytes long (`blake3::OUT_LEN`).
#[verifier::external_body]
fn blake3_hash(data: &[u8]) -> (r: Vec<u8>)
    ensures
        r@ == blake3_digest(data@),
        r@.len() == 32,
{
    blake3::hash(data).as_bytes().to_vec()
}

/// Whether every character of `s` is an ASCII digit.
pub open spec fn all_digits(s: Seq<char>) -> bool {
    forall|i: int| 0 <= i < s.len() ==> '0' <= #[trigger] s[i] <= '9'
}

/// An RFC 3339 year as chrono writes it: four digits, or a `+` sign and
/// more digits for years past 9999.
pub open spec fn is_rfc3339_year(s: Seq<char>) -> bool {
    ||| s.len() == 4 && all_digits(s)
    ||| s.len() >= 5 && s[0] == '+' && all_digits(s.drop_first())
}

/// `-MM-DDTHH:MM:SS`: the part after the year.
pub open spec fn is_rfc3339_date_time_rest(s: Seq<char>) -> bool {
    &&& s.len() == 15
    &&& s[0] == '-' && s[3] == '-' && s[6] == 'T' && s[9] == ':' && s[12] == ':'
    &&& all_digits(s.subrange(1, 3)) && all_digits(s.subrange(4, 6))
    &&& all_digits(s.subrange(7, 9)) && all_digits(s.subrange(10, 12))
    &&& all_digits(s.subrange(13, 15))
}

/// The fraction of a second: none, or a dot and 3, 6 or 9 digits.
pub open spec fn is_rfc3339_fraction(s: Seq<char>) -> bool {
    ||| s.len() == 0
    ||| (s.len() == 4 || s.len() == 7 || s.len() == 10) && s[0] == '.' && all_digits(
        s.drop_first(),
    )
}

/// An RFC 3339 UTC timestamp as chrono's `to_rfc3339` writes it, such as
/// `2026-01-02T03:04:05.123+00:00`.
pub open spec fn is_rfc3339_utc(s: Seq<char>) -> bool {
    exists|y: int, f: int|
        {
            &&& 0 < y
            &&& 0 <= f
            &&& y + 15 + f + 6 == s.len()
            &&& is_rfc3339_year(s.subrange(0, y))
            &&& is_rfc3339_date_time_rest(s.subrange(y, y + 15))
            &&& is_rfc3339_fraction(#[trigger] s.subrange(y + 15, y + 15 + f))
            &&& s.subrange(y + 15 + f, s.len() as int) == seq!['+', '0', '0', ':', '0', '0']
        }
}

/// The current UTC time as chrono's `DateTime::<Utc>::to_rfc3339` writes
/// it, from `SystemTime::now()` measured from the Unix epoch and
/// `DateTime::from_timestamp`. It is `None` when the clock reads before
/// 1970 or beyond chrono's range, where `chrono::Utc::now` would panic.
/// The contract claims only the shape of the text (`is_rfc3339_utc`), as
/// chrono's `write_rfc3339` writes it for a UTC time; which time it is
/// depends on the clock and is not stated.
#[verifier::external_body]
fn utc_now_rfc3339() -> (r: Option<String>)
    ensures
        r matches Some(s) ==> is_rfc3339_utc(s@),
{
    let since = std::time::SystemTime::now().duration_since(std::time::UNIX_EPOCH).ok()?;
    let secs = i64::try_from(since.as_secs()).ok()?;
    let now = chrono::DateTime::from_timestamp(secs, since.subsec_nanos())?;
    Some(now.to_rfc3339())
}

/// The lower-case hexadecimal digit for `n < 16`.
pub open spec fn hex_digit(n: int) -> char {
    seq!['0', '1', '2', '3', '4', '5', '6', '7', '8', '9', 'a', 'b', 'c', 'd', 'e', 'f'][n]
}

/// `bytes` in lower-case hexadecimal, two digits per byte, high digit first.
pub open spec fn lower_hex(bytes: Seq<u8>) -> Seq<char>
    decreases bytes.len(),
{
    if bytes.len() == 0 {
        Seq::<char>::empty()
    } else {
        lower_hex(bytes.drop_last()) + seq![
            hex_digit(bytes.last() as int / 16),
            hex_digit(bytes.last() as int % 16),
        ]
    }
}

/// `lower_hex` writes two digits per byte.
pub proof fn lemma_lower_hex_len(bytes: Seq<u8>)
    ensures
        lower_hex(bytes).len() == 2 * bytes.len(),
    decreases bytes.len(),
{
    if bytes.len() > 0 {
        lemma_lower_hex_len(bytes.drop_last());
    }
}

/// The hash a clip of content `content` is deduplicated by: the lower-case
/// hex of the BLAKE3 digest of its UTF-8 bytes.
pub open spec fn clip_hash(content: Seq<char>) -> Seq<char> {
    lower_hex(blake3_digest(encode_utf8(content)))
}

/// The hexadecimal digit for `n < 16`.
fn hex_char(n: u8) -> (c: char)
    requires
        n < 16,
    ensures
        c == hex_digit(n as int),
{
    match n {
        0 => '0',
        1 => '1',
        2 => '2',
        3 => '3',
        4 => '4',
        5 => '5',
        6 => '6',
        7 => '7',
        8 => '8',
        9 => '9',
        10 => 'a',
        11 => 'b',
        12 => 'c',
        13 => 'd',
        14 => 'e',
        _ => 'f',
    }
}

/// `bytes` in lower-case hexadecimal.
pub fn to_lower_hex(bytes: &Vec<u8>) -> (r: String)
    ensures
        r@ == lower_hex(bytes@),
{
    let mut digits: Vec<char> = Vec::new();
    let mut i: usize = 0;
    while i < bytes.len()
        invariant
            i <= bytes.len(),
            digits@ == lower_hex(bytes@.take(i as int)),
        decreases bytes.len() - i,
    {
        let b = bytes[i];
        assert(bytes@.take(i + 1).drop_last() =~= bytes@.take(i as int));
        digits.push(hex_char(b / 16));
        digits.push(hex_char(b % 16));
        assert(digits@ =~= lower_hex(bytes@.take(i + 1)));
        i = i + 1;
    }
    assert(bytes@.take(bytes@.len() as int) =~= bytes@);
    string_of(&digits)
}

/// The hash a clip of content `content` is deduplicated by: 64 lower-case
/// hexadecimal digits.
pub fn hash_content(content: &str) -> (r: String)
    ensures
        r@ == clip_hash(content@),
        r@.len() == 64,
{
    let digest = blake3_hash(content.as_bytes());
    proof {
        lemma_lower_hex_len(digest@);
    }
    to_lower_hex(&digest)
}

/// The characters of an optional text.
pub open spec fn text_view(o: Option<String>) -> Option<Seq<char>> {
    match o {
        Some(s) => Some(s@),
        None => None,
    }
}

/// Whether clipboard text `text` (`None` when unreadable) is new, with
/// `last` the hash of the text last recorded: it is there, it is not
/// blank, and its hash differs from `last`.
pub open spec fn is_new_text(text: Option<Seq<char>>, last: Option<Seq<char>>) -> bool {
    &&& text is Some
    &&& trim(text->0).len() > 0
    &&& last != Some(clip_hash(text->0))
}

/// Whether reading `text` from the clipboard, with `last` the hash of the
/// text last recorded, yields a new clip.
pub open spec fn captures(text: Option<String>, last: Option<String>) -> bool {
    is_new_text(text_view(text), text_view(last))
}

/// Whether `e` is the clip made of `content` with hash `hash`: a text clip,
/// not yet stored (id 0), unpinned, without source application or tags.
pub open spec fn is_text_clip(e: ClipEntry, content: String, hash: Seq<char>) -> bool {
    &&& e.id == 0
    &&& e.content == content
    &&& e.content_hash@ == hash
    &&& e.content_type@ == "text"@
    &&& e.source_app is None
    &&& !e.is_pinned
    &&& e.tags is None
}

/// The clip made of `content`, its hash and the time `created_at`.
pub fn new_text_entry(content: String, content_hash: String, created_at: String) -> (e:
    ClipEntry)
    ensures
        is_text_clip(e, content, content_hash@),
        e.content_hash == content_hash,
        e.created_at == created_at,
{
    ClipEntry {
        id: 0,
        content: content,
        content_hash: content_hash,
        content_type: String::from_str("text"),
        source_app: None,
        is_pinned: false,
        tags: None,
        created_at: created_at,
    }
}

/// Makes a clip of the clipboard's text, stamped `now`: if the text is
/// there (`None` when the clipboard could not be read), is not blank, has a
/// hash that differs from `last_hash`, and a time is given. Then
/// `last_hash` becomes that hash; otherwise nothing changes.
pub fn try_read_clipboard_at(
    clipboard_text: Option<String>,
    last_hash: &mut Option<String>,
    now: Option<String>,
) -> (r: Option<ClipEntry>)
    ensures
        captures(clipboard_text, *old(last_hash)) && now is Some ==> {
            &&& r matches Some(e)
            &&& is_text_clip(e, clipboard_text->0, clip_hash(clipboard_text->0@))
            &&& e.created_at == now->0
            &&& text_view(*final(last_hash)) == Some(clip_hash(clipboard_text->0@))
        },
        !captures(clipboard_text, *old(last_hash)) || now.is_none() ==> {
            &&& r is None
            &&& *final(last_hash) == *old(last_hash)
        },
{
    let content = match clipboard_text {
        Some(text) => text,
        None => return None,
    };
    let cs = chars_of(content.as_str());
    let trimmed = trim_chars(&cs);
    if trimmed.len() == 0 {
        return None;
    }
    let hash = hash_content(content.as_str());
    match last_hash {
        Some(last) => {
            if *last == hash {
                return None;
            }
        },
        None => {},
    }
    let created_at = match now {
        Some(t) => t,
        None => return None,
    };
    *last_hash = Some(hash.clone());
    Some(new_text_entry(content, hash, created_at))
}

/// The Unix epoch as an RFC 3339 UTC timestamp.
pub open spec fn epoch_rfc3339() -> Seq<char> {
    seq![
        '1', '9', '7', '0', '-', '0', '1', '-', '0', '1', 'T', '0', '0', ':', '0', '0', ':',
        '0', '0', '+', '0', '0', ':', '0', '0',
    ]
}

/// The Unix epoch is an RFC 3339 UTC timestamp.
pub proof fn lemma_epoch_is_rfc3339()
    ensures
        is_rfc3339_utc(epoch_rfc3339()),
{
    let s = epoch_rfc3339();
    assert(s.subrange(0, 4) =~= seq!['1', '9', '7', '0']);
    assert(is_rfc3339_year(s.subrange(0, 4)));
    assert(is_rfc3339_date_time_rest(s.subrange(4, 19)));
    assert(s.subrange(19, 19) =~= Seq::<char>::empty());
    assert(is_rfc3339_fraction(s.subrange(4int + 15, 4int + 15 + 0)));
    assert(s.subrange(19, 25) =~= seq!['+', '0', '0', ':', '0', '0']);
}

/// The time a new clip is stamped with: the current time as an RFC 3339
/// UTC timestamp, or the Unix epoch when the clock cannot give one (set
/// before 1970).
pub fn stamp_now() -> (r: String)
    ensures
        is_rfc3339_utc(r@),
{
    match utc_now_rfc3339() {
        Some(t) => t,
        None => {
            let mut cs: Vec<char> = Vec::new();
            cs.push('1');
            cs.push('9');
            cs.push('7');
            cs.push('0');
            cs.push('-');
            cs.push('0');
            cs.push('1');
            cs.push('-');
            cs.push('0');
            cs.push('1');
            cs.push('T');
            cs.push('0');
            cs.push('0');
            cs.push(':');
            cs.push('0');
            cs.push('0');
            cs.push(':');
            cs.push('0');
            cs.push('0');
            cs.push('+');
            cs.push('0');
            cs.push('0');
            cs.push(':');
            cs.push('0');
            cs.push('0');
            proof {
                assert(cs@ =~= epoch_rfc3339());
                lemma_epoch_is_rfc3339();
            }
            string_of(&cs)
        },
    }
}

/// Makes a clip of the clipboard's text, stamped with the current time
/// (the Unix epoch if the clock reads before 1970), whenever the text is
/// there (`None` when the clipboard could not be read), is not blank
/// after trimming, and its hash differs from `last_hash`; then `last_hash`
/// becomes that hash. Otherwise there is no clip and nothing changes.
pub fn try_read_clipboard(clipboard_text: Option<String>, last_hash: &mut Option<String>) -> (r:
    Option<ClipEntry>)
    ensures
        clipboard_text matches Some(c) && trim(c@).len() > 0 && text_view(*old(last_hash)) != Some(
            clip_hash(c@),
        ) ==> {
            &&& r matches Some(e)
            &&& is_text_clip(e, clipboard_text->0, clip_hash(clipboard_text->0@))
            &&& is_rfc3339_utc(e.created_at@)
            &&& text_view(*final(last_hash)) == Some(clip_hash(clipboard_text->0@))
        },
        !captures(clipboard_text, *old(last_hash)) ==> r is None && *final(last_hash) == *old(
            last_hash,
        ),
{
    let now = stamp_now();
    try_read_clipboard_at(clipboard_text, last_hash, Some(now))
}

/// Reading the text just recorded again yields no clip: once a capture of
/// `text` has set the last hash, the same text is skipped.
pub proof fn lemma_same_text_captured_once(text: String, last: Option<String>)
    requires
        text_view(last) == Some(clip_hash(text@)),
    ensures
        !captures(Some(text), last),
{
}

/// Blank text (empty or white space only) is never captured.
pub proof fn lemma_blank_text_not_captured(text: String, last: Option<String>)
    requires
        trim(text@).len() == 0,
    ensures
        !captures(Some(text), last),
{
}

/// The last hash after polling the clipboard texts `texts` in order,
/// starting from `last`: a poll that yields a clip sets it to that text's
/// hash, any other poll leaves it.
pub open spec fn hash_after_polls(last: Option<Seq<char>>, texts: Seq<Option<Seq<char>>>) -> Option<
    Seq<char>,
>
    decreases texts.len(),
{
    if texts.len() == 0 {
        last
    } else {
        let before = hash_after_polls(last, texts.drop_last());
        if is_new_text(texts.last(), before) {
            Some(clip_hash(texts.last()->0))
        } else {
            before
        }
    }
}

/// One copy is recorded once, however often the clipboard is polled: after
/// text `c` was recorded, polls that see `c` again, blank text or an
/// unreadable clipboard record nothing and keep the last hash, so `c` is
/// still not new afterwards.
pub proof fn lemma_one_copy_captured_once(c: Seq<char>, texts: Seq<Option<Seq<char>>>)
    requires
        forall|i: int|
            0 <= i < texts.len() ==> (#[trigger] texts[i]) is None || trim(texts[i]->0).len()
                == 0 || texts[i]->0 == c,
    ensures
        hash_after_polls(Some(clip_hash(c)), texts) == Some(clip_hash(c)),
        forall|i: int|
            0 <= i < texts.len() ==> !is_new_text(
                #[trigger] texts[i],
                hash_after_polls(Some(clip_hash(c)), texts.take(i)),
            ),
        !is_new_text(Some(c), hash_after_polls(Some(clip_hash(c)), texts)),
    decreases texts.len(),
{
    if texts.len() > 0 {
        let t0 = texts.drop_last();
        assert forall|i: int| 0 <= i < t0.len() implies (#[trigger] t0[i]) is None || trim(
            t0[i]->0,
        ).len() == 0 || t0[i]->0 == c by {
            assert(t0[i] == texts[i]);
        }
        lemma_one_copy_captured_once(c, t0);
        assert forall|i: int| 0 <= i < texts.len() implies !is_new_text(
            #[trigger] texts[i],
            hash_after_polls(Some(clip_hash(c)), texts.take(i)),
        ) by {
            if i < t0.len() {
                assert(texts.take(i) =~= t0.take(i));
                assert(t0[i] == texts[i]);
            } else {
                assert(texts.take(i) =~= t0);
            }
        }
    }
}

} // verus!
