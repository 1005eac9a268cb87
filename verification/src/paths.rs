//! Paths as text: joining them as the standard library does on Unix,
//! expanding `~`, and the places a command or an IDE may be found.
use vstd::prelude::*;
use crate::text::{
    extend, from_chars, has_prefix, is_text, slice_range, spec_starts_with, spec_trim, split_char,
    split_on, string_views, to_chars, trim_chars, };

verus! {

/// `base` joined with `rest` as `Path::join` does on Unix: `rest` alone when
/// it is absolute, else with one `/` between them unless `base` is empty or
/// already ends with one.
pub open spec fn spec_path_join(base: Seq<char>, rest: Seq<char>) -> Seq<char> {
    if rest.len() > 0 && rest[0] == '/' {
        rest
    } else if base.len() == 0 || base.last() == '/' {
        base + rest
    } else {
        base + seq!['/'] + rest
    }
}

pub fn path_join(base: &str, rest: &str) -> (r: String)
    ensures
        r@ == spec_path_join(base@, rest@),
{
    let b = to_chars(base);
    let t = to_chars(rest);
    if t.len() > 0 && t[0] == '/' {
        return from_chars(&t);
    }
    let mut out = b;
    if out.len() > 0 && out[out.len() - 1] != '/' {
        out.push('/');
    }
    extend(&mut out, &t);
    from_chars(&out)
}

// ── `~` ──

/// A path with a leading `~/`, or a lone `~`, standing for the home
/// directory `home` where one is known; other paths as they are.
pub open spec fn spec_expand_home(path: Seq<char>, home: Option<Seq<char>>) -> Seq<char> {
    match home {
        Some(h) => if spec_starts_with(path, "~/"@) {
            spec_path_join(h, path.skip(2))
        } else if path == "~"@ {
            h
        } else {
            path
        },
        None => path,
    }
}

pub open spec fn opt_text(o: Option<String>) -> Option<Seq<char>> {
    match o {
        Some(s) => Some(s@),
        None => None,
    }
}

pub fn expand_home(path: &str, home: &Option<String>) -> (r: String)
    ensures
        r@ == spec_expand_home(path@, opt_text(*home)),
{
    proof {
        reveal_strlit("~/");
        reveal_strlit("~");
    }
    let p = to_chars(path);
    match home {
        Some(h) => {
            if has_prefix(&p, &to_chars("~/")) {
                let rest = from_chars(&slice_range(&p, 2, p.len()));
                assert(p@.subrange(2, p@.len() as int) == p@.skip(2));
                path_join(h.as_str(), rest.as_str())
            } else if is_text(&p, "~") {
                h.clone()
            } else {
                path.to_owned()
            }
        },
        None => path.to_owned(),
    }
}

/// `dirs::home_dir`, as text (lossily where it is not UTF-8): the current
/// user's home directory, which the system and the environment decide.
/// Nothing is stated of it.
#[verifier::external_body]
fn home_dir_text() -> (r: Option<String>) {
    match dirs::home_dir() {
        Some(p) => Some(p.to_string_lossy().to_string()),
        None => None,
    }
}

/// `path` with a leading `~` expanded to the user's home directory, where
/// the system knows one.
pub fn shellexpand(path: &str) -> (r: String)
    ensures
        exists|home: Option<Seq<char>>| r@ == spec_expand_home(path@, home),
        !spec_starts_with(path@, "~/"@) && path@ != "~"@ ==> r@ == path@,
{
    let home = home_dir_text();
    let r = expand_home(path, &home);
    assert(r@ == spec_expand_home(path@, opt_text(home)));
    r
}

// ── Where commands and IDEs are ──

/// The executables a command may be: the command in each directory of a
/// `PATH` value (split at `:`), in order.
pub open spec fn spec_command_candidates(path_var: Seq<char>, cmd: Seq<char>) -> Seq<Seq<char>> {
    split_char(path_var, ':').map_values(|d: Seq<char>| spec_path_join(d, cmd))
}

pub fn command_candidates(path_var: &str, cmd: &str) -> (r: Vec<String>)
    ensures
        string_views(r@) == spec_command_candidates(path_var@, cmd@),
{
    let dirs = split_on(&to_chars(path_var), ':');
    let mut out: Vec<String> = Vec::new();
    let mut i: usize = 0;
    while i < dirs.len()
        invariant
            i <= dirs.len(),
            dirs@.len() == split_char(path_var@, ':').len(),
            forall|k: int| 0 <= k < dirs@.len() ==> #[trigger] dirs@[k]@ == split_char(path_var@, ':')[k],
            out@.len() == i,
            forall|k: int| 0 <= k < i ==> #[trigger] out@[k]@ == spec_path_join(dirs@[k]@, cmd@),
        decreases dirs.len() - i,
    {
        let d = from_chars(&dirs[i]);
        out.push(path_join(d.as_str(), cmd));
        i = i + 1;
    }
    assert(string_views(out@) =~= spec_command_candidates(path_var@, cmd@));
    out
}

/// Where macOS keeps the IDE a command stands for: IntelliJ IDEA for
/// `idea`, VS Code for `code`, given the home directory.
pub open spec fn spec_mac_app_paths(cmd: Seq<char>, home: Seq<char>) -> Seq<Seq<char>> {
    if cmd == "idea"@ {
        seq![
            "/Applications/IntelliJ IDEA.app"@,
            "/Applications/IntelliJ IDEA CE.app"@,
            home + "/Applications/JetBrains Toolbox/IntelliJ IDEA Ultimate.app"@,
            home + "/Applications/JetBrains Toolbox/IntelliJ IDEA Community Edition.app"@,
        ]
    } else if cmd == "code"@ {
        seq!["/Applications/Visual Studio Code.app"@, home + "/Applications/Visual Studio Code.app"@]
    } else {
        Seq::empty()
    }
}

fn joined2(a: &str, b: &str) -> (r: String)
    ensures
        r@ == a@ + b@,
{
    let mut out = to_chars(a);
    extend(&mut out, &to_chars(b));
    from_chars(&out)
}

pub fn mac_app_paths(cmd: &str, home: &str) -> (r: Vec<String>)
    ensures
        string_views(r@) == spec_mac_app_paths(cmd@, home@),
{
    let c = to_chars(cmd);
    let mut out: Vec<String> = Vec::new();
    if is_text(&c, "idea") {
        out.push("/Applications/IntelliJ IDEA.app".to_owned());
        out.push("/Applications/IntelliJ IDEA CE.app".to_owned());
        out.push(joined2(home, "/Applications/JetBrains Toolbox/IntelliJ IDEA Ultimate.app"));
        out.push(joined2(home, "/Applications/JetBrains Toolbox/IntelliJ IDEA Community Edition.app"));
    } else if is_text(&c, "code") {
        out.push("/Applications/Visual Studio Code.app".to_owned());
        out.push(joined2(home, "/Applications/Visual Studio Code.app"));
    }
    assert(string_views(out@) =~= spec_mac_app_paths(cmd@, home@));
    out
}

// ── The folder of a new project ──

/// The characters a folder name cannot hold on some systems.
pub open spec fn is_reserved_char(c: char) -> bool {
    c == '\\' || c == '/' || c == ':' || c == '*' || c == '?' || c == '"' || c == '<' || c == '>' || c == '|'
}

/// A project name as a folder name: trimmed, each reserved character
/// replaced by `-`; `project` when nothing is left.
pub open spec fn spec_normalize_folder_name(name: Seq<char>) -> Seq<char> {
    let t = spec_trim(name).map_values(|c: char| if is_reserved_char(c) { '-' } else { c });
    if t.len() == 0 {
        "project"@
    } else {
        t
    }
}

pub fn normalize_folder_name(name: &str) -> (r: String)
    ensures
        r@ == spec_normalize_folder_name(name@),
{
    let t = trim_chars(&to_chars(name));
    let mut out: Vec<char> = Vec::new();
    let mut i: usize = 0;
    while i < t.len()
        invariant
            i <= t.len(),
            out@.len() == i,
            forall|k: int| 0 <= k < i ==> #[trigger] out@[k] == (if is_reserved_char(t@[k]) { '-' } else { t@[k] }),
        decreases t.len() - i,
    {
        let c = t[i];
        if c == '\\' || c == '/' || c == ':' || c == '*' || c == '?' || c == '"' || c == '<' || c == '>' || c == '|' {
            out.push('-');
        } else {
            out.push(c);
        }
        i = i + 1;
    }
    assert(out@ =~= spec_trim(name@).map_values(|c: char| if is_reserved_char(c) { '-' } else { c }));
    if out.len() == 0 {
        "project".to_owned()
    } else {
        from_chars(&out)
    }
}

/// Where a new project goes: the output directory itself when flat, else
/// the folder named after the project inside it.
pub open spec fn spec_target_dir(output_dir: Seq<char>, project_name: Seq<char>, flat: bool) -> Seq<char> {
    if flat {
        output_dir
    } else {
        spec_path_join(output_dir, spec_normalize_folder_name(project_name))
    }
}

pub fn target_dir(output_dir: &str, project_name: &str, flat: bool) -> (r: String)
    ensures
        r@ == spec_target_dir(output_dir@, project_name@, flat),
{
    if flat {
        output_dir.to_owned()
    } else {
        let folder = normalize_folder_name(project_name);
        path_join(output_dir, folder.as_str())
    }
}

/// A folder name made from a project name is never empty and holds no
/// reserved character.
pub proof fn lemma_folder_name_is_safe(name: Seq<char>)
    ensures
        spec_normalize_folder_name(name).len() > 0,
        forall|i: int| 0 <= i < spec_normalize_folder_name(name).len() ==> !is_reserved_char(
            #[trigger] spec_normalize_folder_name(name)[i],
        ),
{
    reveal_strlit("project");
}

} // verus!
