use vstd::prelude::*;
use vstd::string::StringExecFns;

use crate::names::{filter_filename, safe_char, trim_end_dots_spaces};
use crate::util::push_char;

verus! {

/// The commands of the library manager.
pub enum Commands {
    /// Import movies from a directory, moving the files to the library.
    Import { path: String },
    /// Scan movies.
    Scan { path: String },
    /// Clean up the database.
    Sync,
    /// Get the fingerprint of a file.
    Fingerprint { path: String },
    Test,
}

/// The file extensions of videos.
pub open spec fn is_video_ext(e: Seq<char>) -> bool {
    ||| e == "mkv"@
    ||| e == "mp4"@
    ||| e == "avi"@
    ||| e == "m4v"@
    ||| e == "webm"@
    ||| e == "flv"@
    ||| e == "vob"@
    ||| e == "mov"@
    ||| e == "wmv"@
    ||| e == "ogv"@
    ||| e == "ogg"@
}

/// The file extensions of subtitles.
pub open spec fn is_subtitle_ext(e: Seq<char>) -> bool {
    ||| e == "srt"@
    ||| e == "sub"@
    ||| e == "idx"@
    ||| e == "usf"@
    ||| e == "smi"@
}

fn same(t: &str, word: &str) -> (r: bool)
    ensures
        r == (t@ == word@),
{
    t.to_owned() == word.to_owned()
}

/// Whether the extension is that of a video.
pub fn video_extension(e: &str) -> (r: bool)
    ensures
        r == is_video_ext(e@),
{
    same(e, "mkv") || same(e, "mp4") || same(e, "avi") || same(e, "m4v") || same(e, "webm") || same(
        e,
        "flv",
    ) || same(e, "vob") || same(e, "mov") || same(e, "wmv") || same(e, "ogv") || same(e, "ogg")
}

/// Whether the extension is that of a subtitle.
pub fn subtitle_extension(e: &str) -> (r: bool)
    ensures
        r == is_subtitle_ext(e@),
{
    same(e, "srt") || same(e, "sub") || same(e, "idx") || same(e, "usf") || same(e, "smi")
}

/// The reading of an answer to a yes/no question: `y` or `Y` for yes, `n`
/// or `N` for no, `None` for anything else.
pub open spec fn yes_no_spec(a: Seq<char>) -> Option<bool> {
    if a == "y"@ || a == "Y"@ {
        Some(true)
    } else if a == "n"@ || a == "N"@ {
        Some(false)
    } else {
        None
    }
}

/// Reads an answer to a yes/no question.
pub fn yes_no(answer: &str) -> (r: Option<bool>)
    ensures
        r == yes_no_spec(answer@),
{
    if same(answer, "y") || same(answer, "Y") {
        Some(true)
    } else if same(answer, "n") || same(answer, "N") {
        Some(false)
    } else {
        None
    }
}

/// The decimal digits of a number, without leading zeros.
pub open spec fn decimal_digits(n: nat) -> Seq<char>
    decreases n,
{
    if n < 10 {
        seq![(48 + n) as char]
    } else {
        decimal_digits(n / 10) + seq![(48 + n % 10) as char]
    }
}

/// Writes a number in decimal digits.
pub fn decimal_text(n: u32) -> (r: String)
    ensures
        r@ == decimal_digits(n as nat),
    decreases n,
{
    if n < 10 {
        let mut s = String::new();
        push_char(&mut s, ((48 + n) as u8) as char);
        assert(s@ =~= decimal_digits(n as nat));
        s
    } else {
        let mut s = decimal_text(n / 10);
        push_char(&mut s, ((48 + n % 10) as u8) as char);
        assert(s@ =~= decimal_digits(n as nat));
        s
    }
}

/// The file name part `title (year)`, made safe for a file system.
pub open spec fn movie_name(title: Seq<char>, year: nat, suffix: Seq<char>) -> Seq<char> {
    trim_end_dots_spaces(
        (title + seq![' ', '('] + decimal_digits(year) + seq![')'] + suffix).map_values(
            |c: char| safe_char(c),
        ),
    )
}

/// The version mark of the `n`-th copy of a movie: none for the first.
pub open spec fn version_mark(n: i32) -> Seq<char> {
    if n > 1 {
        seq!['.', 'v'] + decimal_digits(n as nat)
    } else {
        Seq::empty()
    }
}

/// Where a movie file goes in the library: a directory `title (year)` under
/// `base`, holding `title (year).ext`, with `.vN` before the extension for
/// the N-th copy of the same movie.
pub fn build_movie_path(base: &str, ext: &str, title: &str, year: u32, duplicate_index: i32) -> (r: String)
    ensures
        r@ == base@ + seq!['/'] + movie_name(title@, year as nat, Seq::empty()) + seq!['/'] + movie_name(
            title@,
            year as nat,
            version_mark(duplicate_index) + seq!['.'] + ext@,
        ),
{
    let year_text = decimal_text(year);
    let mut version = String::new();
    if duplicate_index > 1 {
        version.append(".v");
        let n = decimal_text(duplicate_index as u32);
        version.append(n.as_str());
    }
    let mut dir = String::new();
    dir.append(title);
    dir.append(" (");
    dir.append(year_text.as_str());
    dir.append(")");
    let mut file = String::new();
    file.append(title);
    file.append(" (");
    file.append(year_text.as_str());
    file.append(")");
    file.append(version.as_str());
    file.append(".");
    file.append(ext);
    let dirname = filter_filename(dir.as_str());
    let filename = filter_filename(file.as_str());
    let mut path = String::new();
    path.append(base);
    path.append("/");
    path.append(dirname.as_str());
    path.append("/");
    path.append(filename.as_str());
    proof {
        reveal_strlit(" (");
        reveal_strlit(")");
        reveal_strlit(".v");
        reveal_strlit(".");
        reveal_strlit("/");
        assert(version@ =~= version_mark(duplicate_index));
        assert(dir@ =~= title@ + seq![' ', '('] + decimal_digits(year as nat) + seq![')'] + Seq::<char>::empty());
        assert(file@ =~= title@ + seq![' ', '('] + decimal_digits(year as nat) + seq![')'] + (version_mark(duplicate_index) + seq!['.'] + ext@));
        assert(path@ =~= base@ + seq!['/'] + dirname@ + seq!['/'] + filename@);
    }
    path
}

/// A file found next to or below a video, by the lower-cased stem and
/// extension of its name.
pub struct FileEntry {
    pub stem: Option<String>,
    pub extension: Option<String>,
}

pub open spec fn entry_is_video(e: FileEntry) -> bool {
    e.extension matches Some(x) && is_video_ext(x@)
}

pub open spec fn entry_is_subtitle(e: FileEntry) -> bool {
    e.extension matches Some(x) && is_subtitle_ext(x@)
}

/// Where the subtitles of a video were found, as indices into the list
/// searched.
pub enum SubtitlePick {
    /// Among all the files below the video's directory.
    BelowParent(Vec<usize>),
    /// Among the files next to the video.
    Siblings(Vec<usize>),
}

/// The indices of the entries that satisfy `p`, in order.
pub open spec fn indices_where(s: Seq<FileEntry>, p: spec_fn(FileEntry) -> bool) -> Seq<usize>
    decreases s.len(),
{
    if s.len() == 0 {
        Seq::empty()
    } else if p(s.last()) {
        indices_where(s.drop_last(), p).push((s.len() - 1) as usize)
    } else {
        indices_where(s.drop_last(), p)
    }
}

/// Whether `e` is a subtitle with the same stem as the video.
pub open spec fn same_name_subtitle(video_stem: Seq<char>, e: FileEntry) -> bool {
    entry_is_subtitle(e) && (e.stem matches Some(s) && s@ == video_stem)
}

fn is_video_entry(e: &FileEntry) -> (r: bool)
    ensures
        r == entry_is_video(*e),
{
    match &e.extension {
        Some(x) => video_extension(x.as_str()),
        None => false,
    }
}

fn is_subtitle_entry(e: &FileEntry) -> (r: bool)
    ensures
        r == entry_is_subtitle(*e),
{
    match &e.extension {
        Some(x) => subtitle_extension(x.as_str()),
        None => false,
    }
}

/// Finds the subtitles of a video. Where the video is the only one in its
/// directory, every subtitle below that directory (`below_parent`, `None`
/// where there is no parent) belongs to it; otherwise the subtitles next to
/// it with the same stem do.
pub fn scan_subtitles(video: &FileEntry, siblings: &Vec<FileEntry>, below_parent: Option<&Vec<FileEntry>>) -> (r: SubtitlePick)
    ensures
        (forall|i: int| 0 <= i < siblings@.len() ==> !entry_is_video(#[trigger] siblings@[i])) ==> (match below_parent {
            Some(all) => r matches SubtitlePick::BelowParent(v) && v@ == indices_where(
                all@,
                |e: FileEntry| entry_is_subtitle(e),
            ),
            None => r matches SubtitlePick::BelowParent(v) && v@.len() == 0,
        }),
        (exists|i: int| 0 <= i < siblings@.len() && entry_is_video(#[trigger] siblings@[i])) ==> (match video.stem {
            Some(stem) => r matches SubtitlePick::Siblings(v) && v@ == indices_where(
                siblings@,
                |e: FileEntry| same_name_subtitle(stem@, e),
            ),
            None => r matches SubtitlePick::Siblings(v) && v@.len() == 0,
        }),
{
    let mut other_video = false;
    let mut i: usize = 0;
    while i < siblings.len()
        invariant
            0 <= i <= siblings@.len(),
            other_video <==> exists|k: int| 0 <= k < i && entry_is_video(#[trigger] siblings@[k]),
        decreases siblings@.len() - i,
    {
        if is_video_entry(&siblings[i]) {
            other_video = true;
        }
        i = i + 1;
    }
    if !other_video {
        match below_parent {
            None => SubtitlePick::BelowParent(Vec::new()),
            Some(all) => {
                let mut out: Vec<usize> = Vec::new();
                let mut j: usize = 0;
                while j < all.len()
                    invariant
                        0 <= j <= all@.len(),
                        out@ == indices_where(all@.subrange(0, j as int), |e: FileEntry| entry_is_subtitle(e)),
                    decreases all@.len() - j,
                {
                    assert(all@.subrange(0, j as int + 1).drop_last() =~= all@.subrange(0, j as int));
                    if is_subtitle_entry(&all[j]) {
                        out.push(j);
                    }
                    j = j + 1;
                }
                assert(all@.subrange(0, j as int) =~= all@);
                SubtitlePick::BelowParent(out)
            },
        }
    } else {
        match &video.stem {
            None => SubtitlePick::Siblings(Vec::new()),
            Some(stem) => {
                let mut out: Vec<usize> = Vec::new();
                let mut j: usize = 0;
                while j < siblings.len()
                    invariant
                        0 <= j <= siblings@.len(),
                        out@ == indices_where(siblings@.subrange(0, j as int), |e: FileEntry| same_name_subtitle(stem@, e)),
                    decreases siblings@.len() - j,
                {
                    assert(siblings@.subrange(0, j as int + 1).drop_last() =~= siblings@.subrange(0, j as int));
                    let e = &siblings[j];
                    let hit = match &e.stem {
                        Some(s) => is_subtitle_entry(e) && *s == *stem,
                        None => false,
                    };
                    if hit {
                        out.push(j);
                    }
                    j = j + 1;
                }
                assert(siblings@.subrange(0, j as int) =~= siblings@);
                SubtitlePick::Siblings(out)
            },
        }
    }
}

} // verus!
