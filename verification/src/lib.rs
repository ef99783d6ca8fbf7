#![verifier::loop_isolation(false)]

pub mod catalog;
pub mod entry;
pub mod entry_tag;
pub mod filter;
pub mod folder;
pub mod folder_move;
pub mod folder_ops;
pub mod folder_remove;
pub mod getters;
pub mod id_map;
pub mod laws;
pub mod migrate;
pub mod model;
pub mod name_map;
pub mod player;
pub mod queries;
pub mod scan;
pub mod scan_ops;
pub mod store;
pub mod tag;
pub mod tag_delete;
pub mod tag_ops;
pub mod tags_load;
pub mod watcher;
pub mod waveform;

use vstd::prelude::*;

verus! {

/// What the catalog tells its surroundings when it has changed: the
/// emitter forwards the notice, at once or after a quiescence window. The
/// application implements it; the library only calls it.
pub trait DatabaseEmitter {
    fn on_files_updated(&self, immediate: bool);
}

/// The failures the catalog reports to its callers, each with the value
/// that provoked it.
#[derive(Debug)]
pub enum Error {
    DatabaseNotFound(String),
    DatabaseAlreadyExists(String),
    TagAlreadyExists(String),
    TagNotFound(tag::TagId),
    TagAlreadyExistsForEntry(tag::TagId, entry::EntryId),
    EntryNotFound(entry::EntryId),
    FileAlreadyExists(String),
    FolderAlreadyExists(String),
    Store(store::StoreError),
    Other(String),
}

/// The lower-case counterpart of a character's scalar value, folding only
/// the ASCII range as a file-extension comparison needs.
pub open spec fn lower_u(c: char) -> u32 {
    if 'A' as u32 <= c as u32 <= 'Z' as u32 {
        (c as u32 + 32) as u32
    } else {
        c as u32
    }
}

/// Whether an extension, compared case-insensitively, names one of the
/// audio formats the catalog manages: wav, mp3, flac or ogg.
pub open spec fn is_audio_ext(e: Seq<char>) -> bool {
    ||| (e.len() == 3 && lower_u(e[0]) == 'w' as u32 && lower_u(e[1]) == 'a' as u32 && lower_u(
        e[2],
    ) == 'v' as u32)
    ||| (e.len() == 3 && lower_u(e[0]) == 'm' as u32 && lower_u(e[1]) == 'p' as u32 && lower_u(
        e[2],
    ) == '3' as u32)
    ||| (e.len() == 3 && lower_u(e[0]) == 'o' as u32 && lower_u(e[1]) == 'g' as u32 && lower_u(
        e[2],
    ) == 'g' as u32)
    ||| (e.len() == 4 && lower_u(e[0]) == 'f' as u32 && lower_u(e[1]) == 'l' as u32 && lower_u(
        e[2],
    ) == 'a' as u32 && lower_u(e[3]) == 'c' as u32)
}

/// Whether a file name carries an audio extension: there is a final dot
/// after the first character, and what follows it is one of the four
/// recognized extensions. A leading dot alone starts no extension, as with
/// the platform's own file-stem rules.
pub open spec fn is_audio_name(s: Seq<char>) -> bool {
    exists|i: int|
        1 <= i < s.len() && s[i] == '.' && (forall|j: int| i < j < s.len() ==> s[j] != '.')
            && is_audio_ext(s.subrange(i + 1, s.len() as int))
}

/// A file or directory is hidden when its name starts with a dot.
pub fn is_hidden_file(name: &str) -> (r: bool)
    ensures
        r == (name@.len() > 0 && name@[0] == '.'),
{
    if name.unicode_len() > 0 {
        name.get_char(0) == '.'
    } else {
        false
    }
}

/// The lower-case counterpart of one character's scalar value.
fn lower_char_u32(c: char) -> (r: u32)
    ensures
        r == lower_u(c),
{
    let u = c as u32;
    if 65 <= u && u <= 90 {
        u + 32
    } else {
        u
    }
}

/// A regular file is an audio entry exactly when its extension, compared
/// case-insensitively, is wav, mp3, flac or ogg.
pub fn is_audio_file(name: &str) -> (r: bool)
    ensures
        r == is_audio_name(name@),
{
    let n = name.unicode_len();
    let mut dot: usize = 0;
    let mut found = false;
    let mut j: usize = 1;
    while j < n
        invariant
            1 <= j <= n || (n <= 1 && j == 1),
            found ==> 1 <= dot < j && j <= n && name@[dot as int] == '.' && (forall|m: int|
                dot < m < j ==> name@[m] != '.'),
            !found ==> forall|m: int| 1 <= m < j ==> name@[m] != '.',
        decreases n - j,
    {
        if name.get_char(j) == '.' {
            dot = j;
            found = true;
        }
        j += 1;
    }
    if !found {
        proof {
            assert forall|i: int|
                1 <= i < name@.len() && name@[i] == '.' implies false by {}
        }
        return false;
    }
    let el = n - dot - 1;
    let ghost ext = name@.subrange(dot + 1, name@.len() as int);
    let ok: bool = if el == 3 {
        let c0 = lower_char_u32(name.get_char(dot + 1));
        let c1 = lower_char_u32(name.get_char(dot + 2));
        let c2 = lower_char_u32(name.get_char(dot + 3));
        (c0 == 119 && c1 == 97 && c2 == 118) || (c0 == 109 && c1 == 112 && c2 == 51) || (c0 == 111
            && c1 == 103 && c2 == 103)
    } else if el == 4 {
        let c0 = lower_char_u32(name.get_char(dot + 1));
        let c1 = lower_char_u32(name.get_char(dot + 2));
        let c2 = lower_char_u32(name.get_char(dot + 3));
        let c3 = lower_char_u32(name.get_char(dot + 4));
        c0 == 102 && c1 == 108 && c2 == 97 && c3 == 99
    } else {
        false
    };
    proof {
        assert(ext.len() == el);
        assert forall|k: int| 0 <= k < ext.len() implies ext[k] == name@[dot + 1 + k] by {}
        assert(is_audio_ext(ext) == ok);
        if ok {
            assert(is_audio_name(name@)) by {
                assert(1 <= dot < name@.len() && name@[dot as int] == '.' && (forall|m: int|
                    dot < m < name@.len() ==> name@[m] != '.') && is_audio_ext(
                    name@.subrange(dot + 1, name@.len() as int),
                ));
            }
        } else {
            if is_audio_name(name@) {
                let i = choose|i: int|
                    1 <= i < name@.len() && name@[i] == '.' && (forall|j2: int|
                        i < j2 < name@.len() ==> name@[j2] != '.') && is_audio_ext(
                        name@.subrange(i + 1, name@.len() as int),
                    );
                assert(i == dot);
                assert(false);
            }
        }
    }
    ok
}

} // verus!
