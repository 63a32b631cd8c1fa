//! The operations the user interface invokes, on plain values: each
//! answers with a value or with the error's message.
use vstd::prelude::*;

use crate::clipboard::{
    captures, clip_hash, is_rfc3339_utc, is_text_clip, stamp_now, text_view, try_read_clipboard_at,
};
use crate::text::trim;
use crate::db::{ClipEntry, Database, StoreError};

verus! {

/// What clipboard polling remembers between two reads: the hash of the
/// text last recorded.
pub struct ClipboardState {
    pub last_hash: Option<String>,
}

impl ClipboardState {
    /// The state before any read.
    pub fn new() -> (r: ClipboardState)
        ensures
            r.last_hash is None,
    {
        ClipboardState { last_hash: None }
    }
}

/// Searches the history (see `Database::search`).
pub fn search_clips(
    db: &Database,
    query: String,
    limit: usize,
    offset: usize,
    pinned_only: bool,
) -> (r: Result<Vec<ClipEntry>, String>)
    ensures
        r matches Ok(v) && v@ == db@.search_result(query@, limit, offset, pinned_only),
{
    match db.search(query.as_str(), limit, offset, pinned_only) {
        Ok(v) => Ok(v),
        Err(e) => Err(e.message()),
    }
}

/// Flips the pin of clip `id` and answers its new pin state.
pub fn toggle_pin(db: &mut Database, id: i64) -> (r: Result<bool, String>)
    ensures
        final(db)@ == old(db)@.after_toggle_pin(id).0,
        match old(db)@.after_toggle_pin(id).1 {
            Ok(b) => r == Ok::<bool, String>(b),
            Err(e) => r matches Err(m) && m@ == e.spec_message(),
        },
{
    match db.toggle_pin(id) {
        Ok(b) => Ok(b),
        Err(e) => Err(e.message()),
    }
}

/// Deletes clip `id`, if there is one.
pub fn delete_clip(db: &mut Database, id: i64) -> (r: Result<(), String>)
    ensures
        r is Ok,
        final(db)@ == old(db)@.after_delete(id),
{
    match db.delete(id) {
        Ok(()) => Ok(()),
        Err(e) => Err(e.message()),
    }
}

/// Keeps the pinned clips and the `keep_count` newest others, and answers
/// how many clips were deleted.
pub fn cleanup_clips(db: &mut Database, keep_count: usize) -> (r: Result<usize, String>)
    ensures
        r matches Ok(n) && (final(db)@, n) == old(db)@.after_cleanup(keep_count),
{
    match db.cleanup(keep_count) {
        Ok(n) => Ok(n),
        Err(e) => Err(e.message()),
    }
}

/// One poll of the clipboard, whose text (`None` when it could not be
/// read) is `clipboard_text`: new text (readable, not blank after
/// trimming, with a hash other than the last recorded) becomes a clip,
/// stamped with the current time (the Unix epoch if the clock reads before
/// 1970), that is stored and answered, or, when every id is used up, the
/// store's error is answered. Any other text is answered with `None`, and
/// nothing changes.
pub fn check_clipboard(
    db: &mut Database,
    state: &mut ClipboardState,
    clipboard_text: Option<String>,
) -> (r: Result<Option<ClipEntry>, String>)
    ensures
        !captures(clipboard_text, old(state).last_hash) ==> {
            &&& r matches Ok(None)
            &&& final(db)@ == old(db)@
            &&& final(state).last_hash == old(state).last_hash
        },
        clipboard_text matches Some(c) && trim(c@).len() > 0 && text_view(old(state).last_hash)
            != Some(clip_hash(c@)) ==> {
            let hash = clip_hash(clipboard_text->0@);
            &&& text_view(final(state).last_hash) == Some(hash)
            &&& match r {
                Ok(Some(e)) => {
                    &&& is_text_clip(e, clipboard_text->0, hash)
                    &&& is_rfc3339_utc(e.created_at@)
                    &&& old(db)@.last_id < i64::MAX
                    &&& old(db)@.after_insert(e).1 is Ok
                    &&& final(db)@ == old(db)@.after_insert(e).0
                },
                Ok(None) => false,
                Err(m) => {
                    &&& m@ == StoreError::Full.spec_message()
                    &&& old(db)@.last_id == i64::MAX
                    &&& final(db)@ == old(db)@
                },
            }
        },
{
    let now = stamp_now();
    check_clipboard_at(db, state, clipboard_text, Some(now))
}

/// One poll of the clipboard at time `now` (`None` when the clock could
/// not be read): new text becomes a clip stamped `now`, which is stored
/// and answered (with id 0, as read), or, when every id is used up, the
/// store's error is answered; the last hash is then that text's hash
/// either way. Blank text, text equal to the last recorded, or no time:
/// `None`, and nothing changes.
pub fn check_clipboard_at(
    db: &mut Database,
    state: &mut ClipboardState,
    clipboard_text: Option<String>,
    now: Option<String>,
) -> (r: Result<Option<ClipEntry>, String>)
    ensures
        !captures(clipboard_text, old(state).last_hash) || now.is_none() ==> {
            &&& r matches Ok(None)
            &&& final(db)@ == old(db)@
            &&& final(state).last_hash == old(state).last_hash
        },
        captures(clipboard_text, old(state).last_hash) && now.is_some() ==> {
            let hash = clip_hash(clipboard_text->0@);
            &&& text_view(final(state).last_hash) == Some(hash)
            &&& match r {
                Ok(Some(e)) => {
                    &&& is_text_clip(e, clipboard_text->0, hash)
                    &&& e.created_at == now->0
                    &&& old(db)@.last_id < i64::MAX
                    &&& old(db)@.after_insert(e).1 is Ok
                    &&& final(db)@ == old(db)@.after_insert(e).0
                },
                Ok(None) => false,
                Err(m) => {
                    &&& m@ == StoreError::Full.spec_message()
                    &&& old(db)@.last_id == i64::MAX
                    &&& final(db)@ == old(db)@
                },
            }
        },
{
    match try_read_clipboard_at(clipboard_text, &mut state.last_hash, now) {
        Some(e) => {
            match db.insert(&e) {
                Ok(_) => Ok(Some(e)),
                Err(err) => Err(err.message()),
            }
        },
        None => Ok(None),
    }
}

} // verus!
