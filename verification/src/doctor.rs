//! Checking the environment: what each tool's answer says, and the verdict.
use vstd::prelude::*;
use crate::text::{
    from_chars, has_prefix, lemma_views_empty, lemma_views_push, slice_range, spec_starts_with,
    spec_trim, split_char, split_on, to_chars, trim_str, views,
};

verus! {

/// Arguments of the `doctor` command (it takes none).
pub struct DoctorArgs {}

/// How a check came out.
#[derive(PartialEq, Eq, Structural, Clone, Copy, Debug)]
pub enum CheckMark {
    /// Found.
    Found,
    /// Missing, and it matters.
    Missing,
    /// Missing, and it may not matter.
    Warning,
}

/// One line of the report.
pub struct DoctorLine {
    pub mark: CheckMark,
    pub text: String,
}

pub open spec fn doctor_line_views(v: Seq<DoctorLine>) -> Seq<(CheckMark, Seq<char>)> {
    v.map_values(|l: DoctorLine| (l.mark, l.text@))
}

/// A line without the `\r` of a `\r\n` ending.
pub open spec fn strip_cr(l: Seq<char>) -> Seq<char> {
    if l.len() > 0 && l.last() == '\r' {
        l.drop_last()
    } else {
        l
    }
}

/// What `str::lines` gives: the text split at each `\n`, a `\r` before it
/// dropped, and no empty last line after a final `\n`.
pub open spec fn text_lines(s: Seq<char>) -> Seq<Seq<char>> {
    let parts = split_char(s, '\n');
    let n = parts.len() as int;
    let init = parts.take(n - 1).map_values(|l: Seq<char>| strip_cr(l));
    if n == 0 {
        Seq::empty()
    } else if parts[n - 1].len() == 0 {
        init
    } else {
        init.push(parts[n - 1])
    }
}

proof fn lemma_split_nonempty(s: Seq<char>, c: char)
    ensures
        split_char(s, c).len() >= 1,
    decreases s.len(),
{
    crate::text::lemma_find_char_from_bounds(s, c, 0);
    match crate::text::spec_find_char_from(s, c, 0) {
        None => {},
        Some(i) => {
            lemma_split_nonempty(s.skip(i + 1), c);
        },
    }
}

fn strip_cr_exec(l: &Vec<char>) -> (r: Vec<char>)
    ensures
        r@ == strip_cr(l@),
{
    if l.len() > 0 && l[l.len() - 1] == '\r' {
        let r = slice_range(l, 0, l.len() - 1);
        assert(l@.subrange(0, l.len() - 1) == l@.drop_last());
        r
    } else {
        slice_range(l, 0, l.len())
    }
}

pub fn text_lines_exec(s: &Vec<char>) -> (r: Vec<Vec<char>>)
    ensures
        views(r@) == text_lines(s@),
{
    let parts = split_on(s, '\n');
    let ghost ps = split_char(s@, '\n');
    proof {
        lemma_split_nonempty(s@, '\n');
    }
    let n = parts.len();
    let mut out: Vec<Vec<char>> = Vec::new();
    let mut i: usize = 0;
    proof {
        lemma_views_empty();
    }
    while i + 1 < n
        invariant
            n == parts@.len(),
            n == ps.len(),
            n >= 1,
            i + 1 <= n,
            forall|k: int| 0 <= k < n ==> #[trigger] parts@[k]@ == ps[k],
            views(out@) == ps.take(i as int).map_values(|l: Seq<char>| strip_cr(l)),
        decreases n - i,
    {
        let l = strip_cr_exec(&parts[i]);
        proof {
            lemma_views_push(out@, l);
        }
        out.push(l);
        assert(ps.take(i + 1).map_values(|l: Seq<char>| strip_cr(l)) =~= ps.take(i as int).map_values(
            |l: Seq<char>| strip_cr(l),
        ).push(strip_cr(ps[i as int])));
        i = i + 1;
    }
    if parts[n - 1].len() > 0 {
        let last = slice_range(&parts[n - 1], 0, parts[n - 1].len());
        assert(parts@[n - 1]@.subrange(0, parts@[n - 1]@.len() as int) == parts@[n - 1]@);
        proof {
            lemma_views_push(out@, last);
        }
        out.push(last);
    }
    out
}

/// The first line of a text, if it has any.
pub open spec fn first_line(s: Seq<char>) -> Option<Seq<char>> {
    if text_lines(s).len() > 0 {
        Some(text_lines(s)[0])
    } else {
        None
    }
}

/// The first line that starts with `Gradle `.
pub open spec fn first_gradle_line(lines: Seq<Seq<char>>) -> Option<Seq<char>>
    decreases lines.len(),
{
    if lines.len() == 0 {
        None
    } else if spec_starts_with(lines[0], "Gradle "@) {
        Some(lines[0])
    } else {
        first_gradle_line(lines.drop_first())
    }
}

pub open spec fn or_text(o: Option<Seq<char>>, d: Seq<char>) -> Seq<char> {
    match o {
        Some(t) => t,
        None => d,
    }
}

/// What a tool printed: its standard output, or its error output when the
/// former is empty.
pub fn command_text(stdout: String, stderr: String) -> (r: String)
    ensures
        r@ == if stdout@.len() > 0 { stdout@ } else { stderr@ },
{
    if !stdout.as_str().is_empty() {
        stdout
    } else {
        stderr
    }
}

pub open spec fn opt_text(o: Option<String>) -> Option<Seq<char>> {
    match o {
        Some(s) => Some(s@),
        None => None,
    }
}

/// The report, given what each tool printed (`None` where it could not be
/// run or failed) and whether the IDEs were found: a line per tool, and
/// whether everything critical (Java) is there.
pub open spec fn spec_doctor_report(
    java: Option<Seq<char>>,
    git: Option<Seq<char>>,
    maven: Option<Seq<char>>,
    gradle: Option<Seq<char>>,
    docker: Option<Seq<char>>,
    idea_found: bool,
    code_found: bool,
) -> (Seq<(CheckMark, Seq<char>)>, bool) {
    (
        seq![
            match java {
                Some(out) => (CheckMark::Found, or_text(first_line(out), "Java (unknown version)"@)),
                None => (CheckMark::Missing, "Java not found (critical)"@),
            },
            match git {
                Some(out) => (CheckMark::Found, spec_trim(or_text(first_line(out), "Git"@))),
                None => (CheckMark::Missing, "Git not found"@),
            },
            match maven {
                Some(out) => (CheckMark::Found, or_text(first_line(out), "Maven"@)),
                None => (CheckMark::Warning, "Maven not found"@),
            },
            match gradle {
                Some(out) => (CheckMark::Found, or_text(first_gradle_line(text_lines(out)), "Gradle"@)),
                None => (CheckMark::Warning, "Gradle not found"@),
            },
            match docker {
                Some(out) => (CheckMark::Found, spec_trim(out)),
                None => (CheckMark::Missing, "Docker not found"@),
            },
            if idea_found {
                (CheckMark::Found, "IntelliJ IDEA"@)
            } else {
                (CheckMark::Warning, "IntelliJ IDEA not found in PATH or standard locations"@)
            },
            if code_found {
                (CheckMark::Found, "VS Code"@)
            } else {
                (CheckMark::Warning, "VS Code not found"@)
            },
        ],
        java is Some,
    )
}

fn first_line_or(out: &String, d: &str) -> (r: String)
    ensures
        r@ == or_text(first_line(out@), d@),
{
    let lines = text_lines_exec(&to_chars(out.as_str()));
    if lines.len() > 0 {
        from_chars(&lines[0])
    } else {
        d.to_owned()
    }
}

fn gradle_line_or(out: &String) -> (r: String)
    ensures
        r@ == or_text(first_gradle_line(text_lines(out@)), "Gradle"@),
{
    let lines = text_lines_exec(&to_chars(out.as_str()));
    let ghost ls = views(lines@);
    let prefix = to_chars("Gradle ");
    let mut i: usize = 0;
    assert(ls.skip(0) == ls);
    while i < lines.len()
        invariant
            i <= lines.len(),
            ls == views(lines@),
            ls == text_lines(out@),
            prefix@ == "Gradle "@,
            first_gradle_line(ls) == first_gradle_line(ls.skip(i as int)),
        decreases lines.len() - i,
    {
        assert(ls.skip(i as int)[0] == lines@[i as int]@);
        assert(ls.skip(i as int).drop_first() == ls.skip(i + 1));
        if has_prefix(&lines[i], &prefix) {
            return from_chars(&lines[i]);
        }
        i = i + 1;
    }
    "Gradle".to_owned()
}

fn line(mark: CheckMark, text: String) -> (r: DoctorLine)
    ensures
        r.mark == mark,
        r.text@ == text@,
{
    DoctorLine { mark, text }
}

/// The report of the environment check (see `spec_doctor_report`).
pub fn doctor_report(
    java: Option<String>,
    git: Option<String>,
    maven: Option<String>,
    gradle: Option<String>,
    docker: Option<String>,
    idea_found: bool,
    code_found: bool,
) -> (r: (Vec<DoctorLine>, bool))
    ensures
        (doctor_line_views(r.0@), r.1) == spec_doctor_report(
            opt_text(java),
            opt_text(git),
            opt_text(maven),
            opt_text(gradle),
            opt_text(docker),
            idea_found,
            code_found,
        ),
{
    let all_good = java.is_some();
    let mut out: Vec<DoctorLine> = Vec::new();
    out.push(match &java {
        Some(o) => line(CheckMark::Found, first_line_or(o, "Java (unknown version)")),
        None => line(CheckMark::Missing, "Java not found (critical)".to_owned()),
    });
    out.push(match &git {
        Some(o) => line(CheckMark::Found, trim_str(first_line_or(o, "Git").as_str())),
        None => line(CheckMark::Missing, "Git not found".to_owned()),
    });
    out.push(match &maven {
        Some(o) => line(CheckMark::Found, first_line_or(o, "Maven")),
        None => line(CheckMark::Warning, "Maven not found".to_owned()),
    });
    out.push(match &gradle {
        Some(o) => line(CheckMark::Found, gradle_line_or(o)),
        None => line(CheckMark::Warning, "Gradle not found".to_owned()),
    });
    out.push(match &docker {
        Some(o) => line(CheckMark::Found, trim_str(o.as_str())),
        None => line(CheckMark::Missing, "Docker not found".to_owned()),
    });
    out.push(if idea_found {
        line(CheckMark::Found, "IntelliJ IDEA".to_owned())
    } else {
        line(CheckMark::Warning, "IntelliJ IDEA not found in PATH or standard locations".to_owned())
    });
    out.push(if code_found {
        line(CheckMark::Found, "VS Code".to_owned())
    } else {
        line(CheckMark::Warning, "VS Code not found".to_owned())
    });
    let ghost spec = spec_doctor_report(
        opt_text(java),
        opt_text(git),
        opt_text(maven),
        opt_text(gradle),
        opt_text(docker),
        idea_found,
        code_found,
    );
    assert(doctor_line_views(out@) =~= spec.0);
    (out, all_good)
}

} // verus!
