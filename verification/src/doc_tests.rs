//! Testing the code of chapters with `rustdoc`: which chapters are tested
//! and the arguments `rustdoc` gets.

use vstd::prelude::*;
use crate::config::RustEdition;
use crate::paths::{join, join_path};
use crate::text::chars_eq;
use crate::text::chars_of;

verus! {

/// The views of a list of strings.
pub open spec fn str_views(v: Seq<String>) -> Seq<Seq<char>> {
    v.map_values(|s: String| s@)
}

/// The `-L` arguments for the library paths: each path, made absolute
/// against `cwd` when it is relative, after a `-L`.
pub open spec fn library_args_for(paths: Seq<Seq<char>>, cwd: Seq<char>) -> Seq<Seq<char>>
    decreases paths.len(),
{
    if paths.len() == 0 {
        seq![]
    } else {
        let p = paths.last();
        library_args_for(paths.drop_last(), cwd) + seq![
            "-L"@,
            if p.len() > 0 && p[0] == '/' {
                p
            } else {
                join_path(cwd, p)
            },
        ]
    }
}

/// Builds the `-L` arguments; see [`library_args_for`].
pub fn library_args(paths: &Vec<String>, cwd: &str) -> (r: Vec<String>)
    ensures
        str_views(r@) == library_args_for(str_views(paths@), cwd@),
{
    let mut out: Vec<String> = Vec::new();
    let mut i: usize = 0;
    while i < paths.len()
        invariant
            i <= paths@.len(),
            str_views(out@) == library_args_for(str_views(paths@).take(i as int), cwd@),
        decreases paths@.len() - i,
    {
        let p = &paths[i];
        let pv = chars_of(p.as_str());
        let full = if pv.len() > 0 && pv[0] == '/' {
            p.clone()
        } else {
            join(cwd, p.as_str())
        };
        let ghost before = str_views(out@);
        out.push("-L".to_owned());
        out.push(full);
        proof {
            let t = str_views(paths@).take(i + 1);
            assert(t.drop_last() =~= str_views(paths@).take(i as int));
            assert(t.last() == p@);
            assert(str_views(out@) =~= before + seq!["-L"@, full@]);
        }
        i = i + 1;
    }
    assert(str_views(paths@).take(paths@.len() as int) =~= str_views(paths@));
    out
}

/// Whether a chapter is tested: it has a non-empty path and, when one
/// chapter is asked for, its name or its path is the one asked for.
pub open spec fn chapter_tested(name: Seq<char>, path: Option<Seq<char>>, wanted: Option<Seq<char>>) -> bool {
    match path {
        Some(p) => p.len() > 0 && match wanted {
            Some(w) => name == w || p == w,
            None => true,
        },
        None => false,
    }
}

/// Decides whether a chapter is tested; see [`chapter_tested`].
pub fn is_chapter_tested(name: &str, path: Option<&str>, wanted: Option<&str>) -> (r: bool)
    ensures
        r == chapter_tested(
            name@,
            match path {
                Some(p) => Some(p@),
                None => None,
            },
            match wanted {
                Some(w) => Some(w@),
                None => None,
            },
        ),
{
    match path {
        None => false,
        Some(p) => {
            let pv = chars_of(p);
            if pv.len() == 0 {
                return false;
            }
            match wanted {
                None => true,
                Some(w) => {
                    let wv = chars_of(w);
                    chars_eq(&chars_of(name), &wv) || chars_eq(&pv, &wv)
                },
            }
        },
    }
}

/// The year of an edition.
pub open spec fn edition_year(e: RustEdition) -> Seq<char> {
    match e {
        RustEdition::E2015 => "2015"@,
        RustEdition::E2018 => "2018"@,
        RustEdition::E2021 => "2021"@,
        RustEdition::E2024 => "2024"@,
    }
}

/// The arguments of `rustdoc` for testing a chapter: its path, `--test`,
/// the library arguments, the edition when one is configured, and
/// `--color always` when the output is a terminal.
pub open spec fn rustdoc_args_for(
    chapter_path: Seq<char>,
    library: Seq<Seq<char>>,
    edition: Option<RustEdition>,
    color: bool,
) -> Seq<Seq<char>> {
    seq![chapter_path, "--test"@] + library + match edition {
        Some(e) => seq!["--edition"@, edition_year(e)],
        None => seq![],
    } + if color {
        seq!["--color"@, "always"@]
    } else {
        seq![]
    }
}

/// Builds the arguments of `rustdoc`; see [`rustdoc_args_for`].
pub fn rustdoc_args(
    chapter_path: &str,
    library: &Vec<String>,
    edition: Option<RustEdition>,
    color: bool,
) -> (r: Vec<String>)
    ensures
        str_views(r@) == rustdoc_args_for(chapter_path@, str_views(library@), edition, color),
{
    let mut out: Vec<String> = Vec::new();
    out.push(chapter_path.to_owned());
    out.push("--test".to_owned());
    let mut i: usize = 0;
    while i < library.len()
        invariant
            i <= library@.len(),
            str_views(out@) == seq![chapter_path@, "--test"@] + str_views(library@).take(i as int),
        decreases library@.len() - i,
    {
        let ghost before = str_views(out@);
        out.push(library[i].clone());
        assert(str_views(out@) =~= before.push(library@[i as int]@));
        assert(str_views(library@).take(i + 1) =~= str_views(library@).take(i as int).push(
            library@[i as int]@,
        ));
        i = i + 1;
        assert(str_views(out@) =~= seq![chapter_path@, "--test"@] + str_views(library@).take(i as int));
    }
    assert(str_views(library@).take(library@.len() as int) =~= str_views(library@));
    let ghost base = str_views(out@);
    if let Some(e) = edition {
        out.push("--edition".to_owned());
        let year = match e {
            RustEdition::E2015 => "2015".to_owned(),
            RustEdition::E2018 => "2018".to_owned(),
            RustEdition::E2021 => "2021".to_owned(),
            RustEdition::E2024 => "2024".to_owned(),
        };
        out.push(year);
    }
    let ghost mid = str_views(out@);
    assert(mid =~= base + match edition {
        Some(e) => seq!["--edition"@, edition_year(e)],
        None => Seq::<Seq<char>>::empty(),
    });
    if color {
        out.push("--color".to_owned());
        out.push("always".to_owned());
    }
    assert(str_views(out@) =~= rustdoc_args_for(chapter_path@, str_views(library@), edition, color));
    out
}


/// Why testing a book's chapters fails.
#[derive(Debug, PartialEq)]
pub enum TestError {
    /// `rustdoc` failed on at least one chapter.
    Failed,
    /// No chapter has the requested name or path.
    ChapterNotFound(String),
}

impl TestError {
    /// The message of the error.
    pub fn message(&self) -> (r: String)
        ensures
            r@ == match self {
                TestError::Failed => "One or more tests failed"@,
                TestError::ChapterNotFound(c) => "Chapter not found: "@ + c@,
            },
    {
        match self {
            TestError::Failed => String::from_str("One or more tests failed"),
            TestError::ChapterNotFound(c) => String::from_str("Chapter not found: ").concat(c.as_str()),
        }
    }
}

/// The outcome of testing the chapters: a failure of `rustdoc` on any
/// chapter comes first; then a requested chapter that no chapter matched;
/// otherwise success.
pub fn test_outcome(failed: bool, found: bool, chapter: Option<&str>) -> (r: Result<(), TestError>)
    ensures
        failed ==> r == Err::<(), TestError>(TestError::Failed),
        !failed ==> match chapter {
            Some(c) => if found {
                r is Ok
            } else {
                r matches Err(TestError::ChapterNotFound(n)) && n@ == c@
            },
            None => r is Ok,
        },
{
    if failed {
        return Err(TestError::Failed);
    }
    match chapter {
        Some(c) => if found {
            Ok(())
        } else {
            Err(TestError::ChapterNotFound(String::from_str(c)))
        },
        None => Ok(()),
    }
}

} // verus!
