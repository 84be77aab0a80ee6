//! Which of a project's files the model and the file picker get to see.

use vstd::prelude::*;
use crate::order::{sort_strings, sorted_strs};
use crate::text::{lower_of, push_char, str_eq, take_chars, to_lowercase, views};

verus! {

/// At most this many paths are collected.
pub const MAX_FILES: usize = 2000;

/// Files larger than this many bytes are left out of the model's view.
pub const MAX_FILE_SIZE: u64 = 1_000_000;

/// What a walk of the project saw at one path.
#[derive(Clone, Debug)]
pub struct WalkEntry {
    /// The path relative to the project root.
    pub rel: String,
    pub is_file: bool,
    pub is_dir: bool,
    /// The file's size in bytes, when it could be read.
    pub size: Option<u64>,
    /// The file's extension, when it has one.
    pub ext: Option<String>,
}

/// The extensions of files that are not worth showing a model (images,
/// fonts, media, archives, PDFs, lock files), case-folded.
pub open spec fn binary_ext(e: Seq<char>) -> bool {
    let l = lower_of(e);
    ||| l == "png"@ || l == "jpg"@ || l == "jpeg"@ || l == "gif"@ || l == "webp"@ || l == "ico"@
    ||| l == "svg"@ || l == "woff"@ || l == "woff2"@ || l == "ttf"@ || l == "eot"@ || l == "mp4"@
    ||| l == "mp3"@ || l == "wav"@ || l == "zip"@ || l == "tar"@ || l == "gz"@ || l == "pdf"@
    ||| l == "lock"@
}

fn is_binary_ext(e: &str) -> (r: bool)
    ensures
        r == binary_ext(e@),
{
    let l = to_lowercase(e);
    let l = l.as_str();
    str_eq(l, "png") || str_eq(l, "jpg") || str_eq(l, "jpeg") || str_eq(l, "gif") || str_eq(l, "webp")
        || str_eq(l, "ico") || str_eq(l, "svg") || str_eq(l, "woff") || str_eq(l, "woff2") || str_eq(
        l,
        "ttf",
    ) || str_eq(l, "eot") || str_eq(l, "mp4") || str_eq(l, "mp3") || str_eq(l, "wav") || str_eq(
        l,
        "zip",
    ) || str_eq(l, "tar") || str_eq(l, "gz") || str_eq(l, "pdf") || str_eq(l, "lock")
}

/// A file the model is shown: a regular file, not over the size limit,
/// without a binary extension.
pub open spec fn shown_file(e: WalkEntry) -> bool {
    &&& e.is_file
    &&& !(e.size matches Some(s) && s > MAX_FILE_SIZE)
    &&& !(e.ext matches Some(x) && binary_ext(x@))
}

/// The paths of the files shown, in walk order, stopping at `MAX_FILES`.
pub open spec fn shown_files(es: Seq<WalkEntry>) -> Seq<Seq<char>>
    decreases es.len(),
{
    if es.len() == 0 {
        Seq::empty()
    } else {
        let kept = shown_files(es.drop_last());
        if kept.len() < MAX_FILES && shown_file(es.last()) {
            kept.push(es.last().rel@)
        } else {
            kept
        }
    }
}

/// `shown_files`, computed.
pub fn project_files(entries: &Vec<WalkEntry>) -> (r: Vec<String>)
    ensures
        views(r@) == shown_files(entries@),
{
    let mut out: Vec<String> = Vec::new();
    let mut i: usize = 0;
    assert(entries@.take(0) =~= Seq::<WalkEntry>::empty());
    while i < entries.len()
        invariant
            i <= entries.len(),
            views(out@) == shown_files(entries@.take(i as int)),
        decreases entries.len() - i,
    {
        assert(entries@.take(i + 1).drop_last() =~= entries@.take(i as int));
        let e = &entries[i];
        let big = match e.size {
            Some(s) => s > MAX_FILE_SIZE,
            None => false,
        };
        let binary = match &e.ext {
            Some(x) => is_binary_ext(x.as_str()),
            None => false,
        };
        if out.len() < MAX_FILES && e.is_file && !big && !binary {
            let ghost before = views(out@);
            out.push(e.rel.clone());
            assert(views(out@) =~= before.push(e.rel@));
        }
        i = i + 1;
    }
    assert(entries@.take(entries.len() as int) =~= entries@);
    out
}

/// What the file picker lists for an entry: files as they are, folders
/// with a trailing `/`; nothing for other kinds or for the root itself.
pub open spec fn picker_text(e: WalkEntry) -> Option<Seq<char>> {
    if !e.is_dir && !e.is_file {
        None
    } else if e.rel@.len() == 0 {
        None
    } else if e.is_dir {
        Some(e.rel@.push('/'))
    } else {
        Some(e.rel@)
    }
}

/// The picker's entries in walk order, stopping at `MAX_FILES`.
pub open spec fn picker_list(es: Seq<WalkEntry>) -> Seq<Seq<char>>
    decreases es.len(),
{
    if es.len() == 0 {
        Seq::empty()
    } else {
        let kept = picker_list(es.drop_last());
        match picker_text(es.last()) {
            Some(t) => if kept.len() < MAX_FILES {
                kept.push(t)
            } else {
                kept
            },
            None => kept,
        }
    }
}

/// The files and folders the picker offers: `picker_list`, sorted.
pub fn project_entries(entries: &Vec<WalkEntry>) -> (r: Vec<String>)
    ensures
        sorted_strs(views(r@)),
        views(r@).to_multiset() == picker_list(entries@).to_multiset(),
{
    let mut out: Vec<String> = Vec::new();
    let mut i: usize = 0;
    assert(entries@.take(0) =~= Seq::<WalkEntry>::empty());
    while i < entries.len()
        invariant
            i <= entries.len(),
            views(out@) == picker_list(entries@.take(i as int)),
        decreases entries.len() - i,
    {
        assert(entries@.take(i + 1).drop_last() =~= entries@.take(i as int));
        let e = &entries[i];
        if (e.is_dir || e.is_file) && e.rel.unicode_len() > 0 && out.len() < MAX_FILES {
            let mut s = e.rel.clone();
            if e.is_dir {
                push_char(&mut s, '/');
            }
            let ghost before = views(out@);
            let ghost sv = s@;
            out.push(s);
            assert(views(out@) =~= before.push(sv));
        }
        i = i + 1;
    }
    assert(entries@.take(entries.len() as int) =~= entries@);
    sort_strings(out)
}

/// The tasks a new task's request lists for dependency suggestions: the
/// others (by description), each as the first 8 characters of its uuid
/// and its description, at most 20.
pub open spec fn listed_tasks(tasks: Seq<(String, String)>, description: Seq<char>) -> Seq<
    (Seq<char>, Seq<char>),
>
    decreases tasks.len(),
{
    if tasks.len() == 0 {
        Seq::empty()
    } else {
        let kept = listed_tasks(tasks.drop_last(), description);
        let t = tasks.last();
        if kept.len() < 20 && t.1@ != description {
            kept.push((t.0@.take(if 8 <= t.0@.len() { 8 } else { t.0@.len() as int }), t.1@))
        } else {
            kept
        }
    }
}

pub open spec fn pair_views(v: Seq<(String, String)>) -> Seq<(Seq<char>, Seq<char>)> {
    v.map_values(|p: (String, String)| (p.0@, p.1@))
}

/// `listed_tasks`, computed from `(uuid, description)` pairs.
pub fn existing_task_list(tasks: &Vec<(String, String)>, description: &str) -> (r: Vec<(String, String)>)
    ensures
        pair_views(r@) == listed_tasks(tasks@, description@),
{
    let mut out: Vec<(String, String)> = Vec::new();
    let mut i: usize = 0;
    assert(tasks@.take(0) =~= Seq::<(String, String)>::empty());
    while i < tasks.len()
        invariant
            i <= tasks.len(),
            pair_views(out@) == listed_tasks(tasks@.take(i as int), description@),
        decreases tasks.len() - i,
    {
        assert(tasks@.take(i + 1).drop_last() =~= tasks@.take(i as int));
        let t = &tasks[i];
        if out.len() < 20 && !str_eq(t.1.as_str(), description) {
            let short = take_chars(t.0.as_str(), 8);
            let ghost before = pair_views(out@);
            let ghost entry = (short@, t.1@);
            out.push((short, t.1.clone()));
            assert(pair_views(out@) =~= before.push(entry));
        }
        i = i + 1;
    }
    assert(tasks@.take(tasks.len() as int) =~= tasks@);
    out
}

} // verus!
