//! Automatic environment setup: which competing Node.js version managers
//! are present, how their shell-config hooks are disabled and restored, and
//! the text that puts `~/.nodepilot/current/bin` on the `PATH`.
use vstd::prelude::*;

use crate::paths::{join_path, path_join};
use crate::text::{
    append_chars, chars_of, contains, contains_chars, ends_with, eq_chars, lines, lines_chars, occurs_at,
    push_char, starts_with, starts_with_chars, string_of, trim, trim_chars, views,
};

verus! {

/// What went wrong while setting up the environment.
pub enum EnvSetupError {
    Io(String),
    Plist(String),
    Registry(String),
    ShellConfig(String),
}

impl EnvSetupError {
    /// The message shown to the user.
    pub fn message(&self) -> (m: String)
        ensures
            m@ == match self {
                EnvSetupError::Io(x) => "IO error: "@ + x@,
                EnvSetupError::Plist(x) => "launchd plist error: "@ + x@,
                EnvSetupError::Registry(x) => "registry error: "@ + x@,
                EnvSetupError::ShellConfig(x) => "shell config error: "@ + x@,
            },
    {
        match self {
            EnvSetupError::Io(x) => crate::text::concat_str("IO error: ", x.as_str()),
            EnvSetupError::Plist(x) => crate::text::concat_str("launchd plist error: ", x.as_str()),
            EnvSetupError::Registry(x) => crate::text::concat_str("registry error: ", x.as_str()),
            EnvSetupError::ShellConfig(x) => crate::text::concat_str(
                "shell config error: ",
                x.as_str(),
            ),
        }
    }
}

/// The marker that ends every line the setup adds to a shell config or a
/// PowerShell profile.
pub open spec fn setup_marker() -> Seq<char> {
    "# Added by nodepilot (auto-setup)"@
}

pub fn setup_marker_chars() -> (v: Vec<char>)
    ensures
        v@ == setup_marker(),
{
    chars_of("# Added by nodepilot (auto-setup)")
}

// ---------------------------------------------------------------------------
// Competing managers
// ---------------------------------------------------------------------------

/// The config-file patterns of a competing manager that a trimmed,
/// non-comment line is checked against.
pub open spec fn manager_pattern(name: Seq<char>, t: Seq<char>) -> bool {
    if name == "nvm"@ {
        contains(t, "NVM_DIR"@) || contains(t, "nvm.sh"@) || contains(t, "nvm use"@) || contains(
            t,
            "nvm default"@,
        ) || contains(t, "bash_completion.d/nvm"@)
    } else if name == "fnm"@ {
        contains(t, "fnm env"@) || contains(t, "fnm use"@) || contains(t, "fnm multishell"@)
            || t == "eval \"$(fnm env)\""@ || starts_with(t, "eval \"$(fnm env"@)
    } else if name == "volta"@ {
        contains(t, "VOLTA_HOME"@) || contains(t, "volta/bin"@) || starts_with(t, "export VOLTA"@)
    } else if name == "brew"@ {
        contains(t, "homebrew"@)
    } else {
        false
    }
}

/// A shell-config line that initialises the manager `name`: once trimmed it
/// is not empty, not a comment, and matches one of the manager's patterns.
pub open spec fn is_manager_line_spec(name: Seq<char>, line: Seq<char>) -> bool {
    let t = trim(line);
    t.len() > 0 && t[0] != '#' && manager_pattern(name, t)
}

/// A line that, once trimmed, is neither empty nor a comment.
pub open spec fn active_line(line: Seq<char>) -> bool {
    trim(line).len() > 0 && trim(line)[0] != '#'
}

/// The names of the four managers differ from each other.
proof fn lemma_manager_names_differ()
    ensures
        "nvm"@ != "fnm"@,
        "nvm"@ != "volta"@,
        "nvm"@ != "brew"@,
        "fnm"@ != "volta"@,
        "fnm"@ != "brew"@,
        "volta"@ != "brew"@,
{
    reveal_strlit("nvm");
    reveal_strlit("fnm");
    reveal_strlit("volta");
    reveal_strlit("brew");
    assert("nvm"@.len() != "volta"@.len());
    assert("nvm"@[0] != "fnm"@[0]);
    assert("nvm"@.len() != "brew"@.len());
    assert("fnm"@.len() != "volta"@.len());
    assert("fnm"@.len() != "brew"@.len());
    assert("volta"@.len() != "brew"@.len());
}

/// Each hook that loads or configures nvm marks an active line as an nvm
/// line: `NVM_DIR`, `nvm.sh`, `nvm use`, `nvm default` and its
/// `bash_completion.d/nvm`; and an nvm line holds one of them.
pub proof fn lemma_nvm_hooks(line: Seq<char>)
    ensures
        active_line(line) && contains(trim(line), "NVM_DIR"@) ==> is_manager_line_spec("nvm"@, line),
        active_line(line) && contains(trim(line), "nvm.sh"@) ==> is_manager_line_spec("nvm"@, line),
        active_line(line) && contains(trim(line), "nvm use"@) ==> is_manager_line_spec("nvm"@, line),
        active_line(line) && contains(trim(line), "nvm default"@) ==> is_manager_line_spec(
            "nvm"@,
            line,
        ),
        active_line(line) && contains(trim(line), "bash_completion.d/nvm"@) ==> is_manager_line_spec(
            "nvm"@,
            line,
        ),
        is_manager_line_spec("nvm"@, line) ==> active_line(line) && (contains(trim(line), "NVM_DIR"@)
            || contains(trim(line), "nvm.sh"@) || contains(trim(line), "nvm use"@) || contains(
            trim(line),
            "nvm default"@,
        ) || contains(trim(line), "bash_completion.d/nvm"@)),
{
}

/// Each hook of fnm marks an active line as an fnm line: `fnm env`,
/// `fnm use`, `fnm multishell`, and an `eval "$(fnm env` start; and an
/// fnm line holds one of them.
pub proof fn lemma_fnm_hooks(line: Seq<char>)
    ensures
        active_line(line) && contains(trim(line), "fnm env"@) ==> is_manager_line_spec("fnm"@, line),
        active_line(line) && contains(trim(line), "fnm use"@) ==> is_manager_line_spec("fnm"@, line),
        active_line(line) && contains(trim(line), "fnm multishell"@) ==> is_manager_line_spec(
            "fnm"@,
            line,
        ),
        active_line(line) && starts_with(trim(line), "eval \"$(fnm env"@) ==> is_manager_line_spec(
            "fnm"@,
            line,
        ),
        is_manager_line_spec("fnm"@, line) ==> active_line(line) && (contains(trim(line), "fnm env"@)
            || contains(trim(line), "fnm use"@) || contains(trim(line), "fnm multishell"@) || trim(
            line,
        ) == "eval \"$(fnm env)\""@ || starts_with(trim(line), "eval \"$(fnm env"@)),
{
    lemma_manager_names_differ();
}

/// Each hook of volta marks an active line as a volta line: `VOLTA_HOME`,
/// `volta/bin`, and an `export VOLTA` start; and a volta line holds one
/// of them.
pub proof fn lemma_volta_hooks(line: Seq<char>)
    ensures
        active_line(line) && contains(trim(line), "VOLTA_HOME"@) ==> is_manager_line_spec(
            "volta"@,
            line,
        ),
        active_line(line) && contains(trim(line), "volta/bin"@) ==> is_manager_line_spec(
            "volta"@,
            line,
        ),
        active_line(line) && starts_with(trim(line), "export VOLTA"@) ==> is_manager_line_spec(
            "volta"@,
            line,
        ),
        is_manager_line_spec("volta"@, line) ==> active_line(line) && (contains(
            trim(line),
            "VOLTA_HOME"@,
        ) || contains(trim(line), "volta/bin"@) || starts_with(trim(line), "export VOLTA"@)),
{
    lemma_manager_names_differ();
}

/// An active line that mentions `homebrew` is a Homebrew line, and only
/// such a line is one.
pub proof fn lemma_brew_hooks(line: Seq<char>)
    ensures
        active_line(line) && contains(trim(line), "homebrew"@) ==> is_manager_line_spec(
            "brew"@,
            line,
        ),
        is_manager_line_spec("brew"@, line) ==> active_line(line) && contains(
            trim(line),
            "homebrew"@,
        ),
{
    lemma_manager_names_differ();
}

/// Blank and commented-out lines are never hooks, and no name but the four
/// managers' has any.
pub proof fn lemma_inactive_lines_untouched(name: Seq<char>, line: Seq<char>)
    ensures
        !active_line(line) ==> !is_manager_line_spec(name, line),
        name != "nvm"@ && name != "fnm"@ && name != "volta"@ && name != "brew"@
            ==> !is_manager_line_spec(name, line),
{
}

fn contains_lit(t: &Vec<char>, lit: &str) -> (b: bool)
    ensures
        b == contains(t@, lit@),
{
    let p = chars_of(lit);
    contains_chars(t, &p)
}

fn starts_with_lit(t: &Vec<char>, lit: &str) -> (b: bool)
    ensures
        b == starts_with(t@, lit@),
{
    let p = chars_of(lit);
    starts_with_chars(t, &p)
}

fn eq_lit(t: &Vec<char>, lit: &str) -> (b: bool)
    ensures
        b == (t@ == lit@),
{
    let p = chars_of(lit);
    eq_chars(t, &p)
}

fn manager_pattern_exec(name: &Vec<char>, t: &Vec<char>) -> (b: bool)
    ensures
        b == manager_pattern(name@, t@),
{
    if eq_lit(name, "nvm") {
        contains_lit(t, "NVM_DIR") || contains_lit(t, "nvm.sh") || contains_lit(t, "nvm use")
            || contains_lit(t, "nvm default") || contains_lit(t, "bash_completion.d/nvm")
    } else if eq_lit(name, "fnm") {
        contains_lit(t, "fnm env") || contains_lit(t, "fnm use") || contains_lit(
            t,
            "fnm multishell",
        ) || eq_lit(t, "eval \"$(fnm env)\"") || starts_with_lit(t, "eval \"$(fnm env")
    } else if eq_lit(name, "volta") {
        contains_lit(t, "VOLTA_HOME") || contains_lit(t, "volta/bin") || starts_with_lit(
            t,
            "export VOLTA",
        )
    } else if eq_lit(name, "brew") {
        contains_lit(t, "homebrew")
    } else {
        false
    }
}

fn is_manager_line_chars(name: &Vec<char>, line: &Vec<char>) -> (b: bool)
    ensures
        b == is_manager_line_spec(name@, line@),
{
    let t = trim_chars(line);
    if t.len() == 0 || t[0] == '#' {
        return false;
    }
    manager_pattern_exec(name, &t)
}

/// Whether `line` initialises the competing manager `name` (`nvm`, `fnm`,
/// `volta` or `brew`).
pub fn is_manager_line(name: &str, line: &str) -> (b: bool)
    ensures
        b == is_manager_line_spec(name@, line@),
{
    let n = chars_of(name);
    let l = chars_of(line);
    is_manager_line_chars(&n, &l)
}

/// A competing Node.js version manager found on the system.
pub struct CompetingManager {
    /// `nvm`, `fnm`, `volta` or `brew`.
    pub name: String,
    /// Shell config paths that may hold init hooks of this manager.
    pub config_paths: Vec<String>,
    /// The lines that were disabled: config path, line index, original text.
    pub disabled_lines: Vec<(String, usize, String)>,
}

/// The shell config files that may hold manager hooks.
pub open spec fn shell_config_names() -> Seq<Seq<char>> {
    seq![".zshrc"@, ".bashrc"@, ".bash_profile"@, ".profile"@]
}

/// The shell config files under `home`, in the order they are checked.
pub fn shell_configs(home: &str) -> (paths: Vec<String>)
    ensures
        paths@.len() == 4,
        forall|i: int|
            0 <= i < 4 ==> #[trigger] paths@[i]@ == path_join(home@, shell_config_names()[i]),
{
    let mut paths: Vec<String> = Vec::new();
    paths.push(join_path(home, ".zshrc"));
    paths.push(join_path(home, ".bashrc"));
    paths.push(join_path(home, ".bash_profile"));
    paths.push(join_path(home, ".profile"));
    paths
}

/// What the system was found to hold, per competing manager.
pub struct ManagerProbes {
    /// `~/.nvm` is a directory.
    pub nvm_dir: bool,
    /// `~/.local/share/fnm` or `~/.fnm` is a directory.
    pub fnm_dir: bool,
    /// An `fnm` binary is on the `PATH`.
    pub fnm_on_path: bool,
    /// `~/.volta` is a directory.
    pub volta_dir: bool,
    /// `node` in a Homebrew prefix links into Homebrew.
    pub brew_node: bool,
}

/// The names of the managers that the probes reveal, in the order nvm, fnm,
/// volta, brew.
pub open spec fn detected_names(p: ManagerProbes) -> Seq<Seq<char>> {
    let a = if p.nvm_dir {
        seq!["nvm"@]
    } else {
        Seq::empty()
    };
    let b = if p.fnm_dir || p.fnm_on_path {
        seq!["fnm"@]
    } else {
        Seq::empty()
    };
    let c = if p.volta_dir {
        seq!["volta"@]
    } else {
        Seq::empty()
    };
    let d = if p.brew_node {
        seq!["brew"@]
    } else {
        Seq::empty()
    };
    a + b + c + d
}

/// A sequence with one item holds exactly that item; an empty one holds
/// nothing; a concatenation holds what either part holds.
proof fn lemma_names_membership(a: Seq<Seq<char>>, b: Seq<Seq<char>>, n: Seq<char>)
    ensures
        (a + b).contains(n) <==> a.contains(n) || b.contains(n),
        seq![n].contains(n),
        forall|m: Seq<char>| m != n ==> !seq![m].contains(n),
        !Seq::<Seq<char>>::empty().contains(n),
{
    if a.contains(n) {
        let i = choose|i: int| 0 <= i < a.len() && a[i] == n;
        assert((a + b)[i] == n);
    }
    if b.contains(n) {
        let i = choose|i: int| 0 <= i < b.len() && b[i] == n;
        assert((a + b)[a.len() + i] == n);
    }
    if (a + b).contains(n) {
        let i = choose|i: int| 0 <= i < (a + b).len() && (a + b)[i] == n;
        if i < a.len() {
            assert(a[i] == n);
        } else {
            assert(b[i - a.len()] == n);
        }
    }
    assert(seq![n][0] == n);
}

/// Each manager is detected exactly when its probe is set: nvm for
/// `~/.nvm`, fnm for an fnm directory or an `fnm` on the `PATH`, volta for
/// `~/.volta`, brew for a Homebrew `node`; nothing else is detected, and no
/// manager twice.
pub proof fn lemma_detected_iff_probed(p: ManagerProbes)
    ensures
        detected_names(p).contains("nvm"@) <==> p.nvm_dir,
        detected_names(p).contains("fnm"@) <==> (p.fnm_dir || p.fnm_on_path),
        detected_names(p).contains("volta"@) <==> p.volta_dir,
        detected_names(p).contains("brew"@) <==> p.brew_node,
        forall|i: int|
            0 <= i < detected_names(p).len() ==> {
                let n = #[trigger] detected_names(p)[i];
                n == "nvm"@ || n == "fnm"@ || n == "volta"@ || n == "brew"@
            },
        forall|i: int, j: int|
            0 <= i < j < detected_names(p).len() ==> #[trigger] detected_names(p)[i]
                != #[trigger] detected_names(p)[j],
{
    lemma_manager_names_differ();
    let na = if p.nvm_dir {
        seq!["nvm"@]
    } else {
        Seq::empty()
    };
    let nb = if p.fnm_dir || p.fnm_on_path {
        seq!["fnm"@]
    } else {
        Seq::empty()
    };
    let nc = if p.volta_dir {
        seq!["volta"@]
    } else {
        Seq::empty()
    };
    let nd = if p.brew_node {
        seq!["brew"@]
    } else {
        Seq::empty()
    };
    assert(detected_names(p) == na + nb + nc + nd);
    let names = seq!["nvm"@, "fnm"@, "volta"@, "brew"@];
    assert forall|k: int| 0 <= k < 4 implies {
        let n = #[trigger] names[k];
        &&& (na + nb + nc + nd).contains(n) <==> (na.contains(n) || nb.contains(n) || nc.contains(n)
            || nd.contains(n))
        &&& (na.contains(n) <==> (n == "nvm"@ && p.nvm_dir))
        &&& (nb.contains(n) <==> (n == "fnm"@ && (p.fnm_dir || p.fnm_on_path)))
        &&& (nc.contains(n) <==> (n == "volta"@ && p.volta_dir))
        &&& (nd.contains(n) <==> (n == "brew"@ && p.brew_node))
    } by {
        let n = names[k];
        lemma_names_membership(na + nb + nc, nd, n);
        lemma_names_membership(na + nb, nc, n);
        lemma_names_membership(na, nb, n);
        lemma_names_membership(Seq::empty(), Seq::empty(), n);
    }
    assert(names[0] == "nvm"@);
    assert(names[1] == "fnm"@);
    assert(names[2] == "volta"@);
    assert(names[3] == "brew"@);
}

fn new_manager(name: &str, home: &str) -> (m: CompetingManager)
    ensures
        m.name@ == name@,
        m.config_paths@.len() == 4,
        forall|i: int|
            0 <= i < 4 ==> #[trigger] m.config_paths@[i]@ == path_join(
                home@,
                shell_config_names()[i],
            ),
        m.disabled_lines@.len() == 0,
{
    CompetingManager {
        name: String::from_str(name),
        config_paths: shell_configs(home),
        disabled_lines: Vec::new(),
    }
}

/// The competing managers present on the system, given what was probed
/// under `home`: each with the shell configs that may hold its hooks and no
/// disabled lines yet.
pub fn detect_competing_managers(home: &str, probes: &ManagerProbes) -> (ms: Vec<CompetingManager>)
    ensures
        ms@.len() == detected_names(*probes).len(),
        forall|i: int|
            0 <= i < ms@.len() ==> {
                &&& (#[trigger] ms@[i]).name@ == detected_names(*probes)[i]
                &&& ms@[i].config_paths@.len() == 4
                &&& forall|j: int|
                    0 <= j < 4 ==> #[trigger] ms@[i].config_paths@[j]@ == path_join(
                        home@,
                        shell_config_names()[j],
                    )
                &&& ms@[i].disabled_lines@.len() == 0
            },
{
    let mut ms: Vec<CompetingManager> = Vec::new();
    let ghost names: Seq<Seq<char>> = Seq::empty();
    if probes.nvm_dir {
        ms.push(new_manager("nvm", home));
        proof {
            names = names.push("nvm"@);
        }
    }
    if probes.fnm_dir || probes.fnm_on_path {
        ms.push(new_manager("fnm", home));
        proof {
            names = names.push("fnm"@);
        }
    }
    if probes.volta_dir {
        ms.push(new_manager("volta", home));
        proof {
            names = names.push("volta"@);
        }
    }
    if probes.brew_node {
        ms.push(new_manager("brew", home));
        proof {
            names = names.push("brew"@);
        }
    }
    assert(names =~= detected_names(*probes));
    ms
}

/// A `node` link target that points into Homebrew.
pub open spec fn is_homebrew_target_spec(target: Seq<char>) -> bool {
    contains(target, "Cellar"@) || contains(target, "homebrew"@)
}

/// Whether the target of a `node` symlink lies in Homebrew.
pub fn is_homebrew_target(target: &str) -> (b: bool)
    ensures
        b == is_homebrew_target_spec(target@),
{
    let t = chars_of(target);
    contains_lit(&t, "Cellar") || contains_lit(&t, "homebrew")
}

// ---------------------------------------------------------------------------
// Disabling and restoring manager hooks
// ---------------------------------------------------------------------------

/// Whether hooks are being disabled (commented out) or restored.
#[derive(Clone, Copy, PartialEq, Eq)]
pub enum ShellEdit {
    Disable,
    Restore,
}

/// The comment prefix that disabling puts in front of a hook.
pub open spec fn comment_prefix() -> Seq<char> {
    seq!['#', ' ']
}

/// The line a restore checks against the manager patterns: a trimmed line
/// that starts with `# ` is looked at without it.
pub open spec fn uncommented(line: Seq<char>) -> Seq<char> {
    let t = trim(line);
    if starts_with(t, comment_prefix()) {
        t.skip(2)
    } else {
        line
    }
}

/// Whether an edit touches `line`.
pub open spec fn edit_touches(edit: ShellEdit, name: Seq<char>, line: Seq<char>) -> bool {
    match edit {
        ShellEdit::Disable => is_manager_line_spec(name, line),
        ShellEdit::Restore => is_manager_line_spec(name, uncommented(line)),
    }
}

/// A touched line after the edit: disabling puts `# ` in front of a line
/// that is not yet a comment; restoring removes a leading `# `, or else a
/// leading `#`, from the trimmed line.
pub open spec fn edited_line(edit: ShellEdit, line: Seq<char>) -> Seq<char> {
    let t = trim(line);
    match edit {
        ShellEdit::Disable => if t.len() > 0 && t[0] == '#' {
            line
        } else {
            comment_prefix() + line
        },
        ShellEdit::Restore => if starts_with(t, comment_prefix()) {
            t.skip(2)
        } else if t.len() > 0 && t[0] == '#' {
            t.skip(1)
        } else {
            line
        },
    }
}

/// A line after the edit, touched or not.
pub open spec fn output_line(edit: ShellEdit, name: Seq<char>, line: Seq<char>) -> Seq<char> {
    if edit_touches(edit, name, line) {
        edited_line(edit, line)
    } else {
        line
    }
}

/// The config text after the edit: each line, edited where touched, ends
/// with `'\n'`.
pub open spec fn edited_text(edit: ShellEdit, name: Seq<char>, ls: Seq<Seq<char>>) -> Seq<char>
    decreases ls.len(),
{
    if ls.len() == 0 {
        Seq::empty()
    } else {
        edited_text(edit, name, ls.drop_last()) + output_line(edit, name, ls.last()) + seq!['\n']
    }
}

/// Whether an edit changes `line`: it touches the line and the edited line
/// differs from it.
pub open spec fn edit_changes(edit: ShellEdit, name: Seq<char>, line: Seq<char>) -> bool {
    edit_touches(edit, name, line) && edited_line(edit, line) != line
}

/// The lines the edit changes, with their index, in order.
pub open spec fn touched_lines(edit: ShellEdit, name: Seq<char>, ls: Seq<Seq<char>>) -> Seq<
    (int, Seq<char>),
>
    decreases ls.len(),
{
    if ls.len() == 0 {
        Seq::empty()
    } else {
        let prev = touched_lines(edit, name, ls.drop_last());
        if edit_changes(edit, name, ls.last()) {
            prev.push((ls.len() - 1, ls.last()))
        } else {
            prev
        }
    }
}

/// The result of editing one shell config.
pub struct ShellConfigEdit {
    /// The new text of the file.
    pub output: String,
    /// The changed lines: index and original text.
    pub modified: Vec<(usize, String)>,
}

fn comment_prefix_chars() -> (v: Vec<char>)
    ensures
        v@ == comment_prefix(),
{
    let mut v: Vec<char> = Vec::new();
    v.push('#');
    v.push(' ');
    assert(v@ =~= comment_prefix());
    v
}

fn uncommented_chars(line: &Vec<char>) -> (r: Vec<char>)
    ensures
        r@ == uncommented(line@),
{
    let t = trim_chars(line);
    let cp = comment_prefix_chars();
    if starts_with_chars(&t, &cp) {
        crate::text::subrange_chars(&t, 2, t.len())
    } else {
        line.clone()
    }
}

fn edit_touches_chars(edit: ShellEdit, name: &Vec<char>, line: &Vec<char>) -> (b: bool)
    ensures
        b == edit_touches(edit, name@, line@),
{
    match edit {
        ShellEdit::Disable => is_manager_line_chars(name, line),
        ShellEdit::Restore => {
            let u = uncommented_chars(line);
            is_manager_line_chars(name, &u)
        },
    }
}

fn edited_line_chars(edit: ShellEdit, line: &Vec<char>) -> (r: Vec<char>)
    ensures
        r@ == edited_line(edit, line@),
{
    let t = trim_chars(line);
    let cp = comment_prefix_chars();
    match edit {
        ShellEdit::Disable => {
            if t.len() > 0 && t[0] == '#' {
                line.clone()
            } else {
                let mut r = cp;
                append_chars(&mut r, line);
                r
            }
        },
        ShellEdit::Restore => {
            if starts_with_chars(&t, &cp) {
                crate::text::subrange_chars(&t, 2, t.len())
            } else if t.len() > 0 && t[0] == '#' {
                crate::text::subrange_chars(&t, 1, t.len())
            } else {
                line.clone()
            }
        },
    }
}

/// Edits a shell config's text line by line: each line that the edit touches
/// is disabled or restored, every line is written back followed by `'\n'`,
/// and the lines that changed are reported with their index and original
/// text.
pub fn edit_shell_config(content: &str, name: &str, edit: ShellEdit) -> (r: ShellConfigEdit)
    ensures
        r.output@ == edited_text(edit, name@, lines(content@)),
        r.modified@.len() == touched_lines(edit, name@, lines(content@)).len(),
        forall|i: int|
            0 <= i < r.modified@.len() ==> (#[trigger] r.modified@[i]).0 == touched_lines(
                edit,
                name@,
                lines(content@),
            )[i].0 && r.modified@[i].1@ == touched_lines(edit, name@, lines(content@))[i].1,
{
    let v = chars_of(content);
    let n = chars_of(name);
    let ls = lines_chars(&v);
    let ghost lv = views(ls@);
    let mut out: Vec<char> = Vec::new();
    let mut modified: Vec<(usize, String)> = Vec::new();
    let mut i: usize = 0;
    while i < ls.len()
        invariant
            i <= ls@.len(),
            lv == views(ls@),
            lv == lines(content@),
            n@ == name@,
            out@ == edited_text(edit, name@, lv.take(i as int)),
            modified@.len() == touched_lines(edit, name@, lv.take(i as int)).len(),
            forall|k: int|
                0 <= k < modified@.len() ==> (#[trigger] modified@[k]).0 == touched_lines(
                    edit,
                    name@,
                    lv.take(i as int),
                )[k].0 && modified@[k].1@ == touched_lines(edit, name@, lv.take(i as int))[k].1,
        decreases ls.len() - i,
    {
        let line = &ls[i];
        assert(lv.take(i + 1).drop_last() =~= lv.take(i as int));
        assert(lv.take(i + 1).last() == line@);
        let ghost prev_t = touched_lines(edit, name@, lv.take(i as int));
        if edit_touches_chars(edit, &n, line) {
            let e = edited_line_chars(edit, line);
            append_chars(&mut out, &e);
            if !eq_chars(&e, line) {
                modified.push((i, string_of(line)));
                assert(touched_lines(edit, name@, lv.take(i + 1)) == prev_t.push(
                    (i as int, line@),
                ));
            } else {
                assert(touched_lines(edit, name@, lv.take(i + 1)) == prev_t);
            }
        } else {
            append_chars(&mut out, line);
        }
        out.push('\n');
        assert(out@ =~= edited_text(edit, name@, lv.take(i + 1)));
        i += 1;
    }
    assert(lv.take(ls@.len() as int) =~= lv);
    ShellConfigEdit { output: string_of(&out), modified }
}

// ---------------------------------------------------------------------------
// PATH injection text
// ---------------------------------------------------------------------------

/// The line added to a shell config: `export PATH="<bin>:$PATH"` followed
/// by two spaces and the marker.
pub open spec fn path_export_line_spec(bin: Seq<char>) -> Seq<char> {
    "export PATH=\""@ + bin + ":$PATH\"  "@ + setup_marker()
}

/// The line added to a shell config for `bin`.
pub fn path_export_line(bin: &str) -> (l: String)
    ensures
        l@ == path_export_line_spec(bin@),
{
    let mut v = chars_of("export PATH=\"");
    append_chars(&mut v, &chars_of(bin));
    append_chars(&mut v, &chars_of(":$PATH\"  "));
    append_chars(&mut v, &setup_marker_chars());
    string_of(&v)
}

/// The newline that first ends an unterminated last line.
pub open spec fn newline_if_unterminated(content: Seq<char>) -> Seq<char> {
    if ends_with(content, seq!['\n']) {
        Seq::empty()
    } else {
        seq!['\n']
    }
}

/// What injecting the PATH appends to a shell config with text `content`:
/// nothing if the marker is already there; otherwise a newline if the text
/// does not end in one, then an empty line, the export line and a newline.
pub open spec fn rc_injection_spec(content: Seq<char>, bin: Seq<char>) -> Option<Seq<char>> {
    if contains(content, setup_marker()) {
        None
    } else {
        Some(newline_if_unterminated(content) + seq!['\n'] + path_export_line_spec(bin) + seq!['\n'])
    }
}

/// The text to append to a shell config so that it puts `bin` first on the
/// `PATH`, or `None` if it already does.
pub fn rc_injection(content: &str, bin: &str) -> (r: Option<String>)
    ensures
        match r {
            Some(t) => rc_injection_spec(content@, bin@) == Some(t@),
            None => rc_injection_spec(content@, bin@) is None,
        },
{
    let c = chars_of(content);
    if contains_chars(&c, &setup_marker_chars()) {
        return None;
    }
    let mut nl: Vec<char> = Vec::new();
    nl.push('\n');
    let mut v: Vec<char> = Vec::new();
    if !crate::text::ends_with_chars(&c, &nl) {
        v.push('\n');
    }
    v.push('\n');
    let line = path_export_line(bin);
    append_chars(&mut v, &chars_of(line.as_str()));
    v.push('\n');
    proof {
        assert(nl@ =~= seq!['\n']);
        assert(v@ =~= newline_if_unterminated(content@) + seq!['\n'] + path_export_line_spec(bin@)
            + seq!['\n']);
    }
    Some(string_of(&v))
}

/// The lines of `ls` that do not carry the marker.
pub open spec fn unmarked_lines(ls: Seq<Seq<char>>) -> Seq<Seq<char>> {
    ls.filter(is_unmarked())
}

/// A line that does not carry the marker.
pub open spec fn is_unmarked() -> spec_fn(Seq<char>) -> bool {
    |l: Seq<char>| !contains(l, setup_marker())
}

/// The config text without the lines the setup added: if the marker occurs,
/// the remaining lines joined by `'\n'`, with a final `'\n'`.
pub open spec fn without_marked_lines_spec(content: Seq<char>) -> Option<Seq<char>> {
    if contains(content, setup_marker()) {
        Some(crate::text::join(unmarked_lines(lines(content)), seq!['\n']) + seq!['\n'])
    } else {
        None
    }
}

/// The new text of a config from which the setup's lines are removed, or
/// `None` if it holds none.
pub fn without_marked_lines(content: &str) -> (r: Option<String>)
    ensures
        match r {
            Some(t) => without_marked_lines_spec(content@) == Some(t@),
            None => without_marked_lines_spec(content@) is None,
        },
{
    let c = chars_of(content);
    let marker = setup_marker_chars();
    if !contains_chars(&c, &marker) {
        return None;
    }
    let ls = lines_chars(&c);
    let ghost lv = views(ls@);
    let mut kept: Vec<Vec<char>> = Vec::new();
    let mut i: usize = 0;
    while i < ls.len()
        invariant
            i <= ls@.len(),
            lv == views(ls@),
            marker@ == setup_marker(),
            views(kept@) == unmarked_lines(lv.take(i as int)),
        decreases ls.len() - i,
    {
        assert(lv.take(i + 1).drop_last() =~= lv.take(i as int));
        assert(lv.take(i + 1) =~= lv.take(i as int).push(ls@[i as int]@));
        proof {
            lv.take(i as int).lemma_filter_push(ls@[i as int]@, is_unmarked());
        }
        if !contains_chars(&ls[i], &marker) {
            let ghost before = views(kept@);
            let l = ls[i].clone();
            kept.push(l);
            assert(views(kept@) =~= before.push(ls@[i as int]@));
        }
        i += 1;
    }
    assert(lv.take(ls@.len() as int) =~= lv);
    let mut nl: Vec<char> = Vec::new();
    nl.push('\n');
    let mut joined = crate::text::join_chars(&kept, &nl);
    joined.push('\n');
    proof {
        assert(nl@ =~= seq!['\n']);
        assert(joined@ =~= crate::text::join(views(kept@), seq!['\n']) + seq!['\n']);
    }
    Some(string_of(&joined))
}

/// The line added to a PowerShell profile:
/// `$env:Path = "<bin>;" + $env:Path` followed by two spaces and the marker.
pub open spec fn ps_profile_line_spec(bin: Seq<char>) -> Seq<char> {
    "$env:Path = \""@ + bin + ";\" + $env:Path  "@ + setup_marker()
}

/// The line added to a PowerShell profile for `bin`.
pub fn ps_profile_line(bin: &str) -> (l: String)
    ensures
        l@ == ps_profile_line_spec(bin@),
{
    let mut v = chars_of("$env:Path = \"");
    append_chars(&mut v, &chars_of(bin));
    append_chars(&mut v, &chars_of(";\" + $env:Path  "));
    append_chars(&mut v, &setup_marker_chars());
    string_of(&v)
}

/// What adding the PATH line appends to a PowerShell profile whose text is
/// `existing` (`None` if the profile does not exist yet): nothing if the
/// marker is there; else a newline if an existing text does not end in one,
/// then the line and a newline.
pub open spec fn ps_profile_injection_spec(existing: Option<Seq<char>>, bin: Seq<char>) -> Option<
    Seq<char>,
> {
    match existing {
        Some(c) => if contains(c, setup_marker()) {
            None
        } else {
            Some(newline_if_unterminated(c) + ps_profile_line_spec(bin) + seq!['\n'])
        },
        None => Some(ps_profile_line_spec(bin) + seq!['\n']),
    }
}

/// The text to append to a PowerShell profile, or `None` if it already
/// holds the line.
pub fn ps_profile_injection(existing: Option<&str>, bin: &str) -> (r: Option<String>)
    ensures
        match r {
            Some(t) => ps_profile_injection_spec(
                match existing {
                    Some(c) => Some(c@),
                    None => None,
                },
                bin@,
            ) == Some(t@),
            None => ps_profile_injection_spec(
                match existing {
                    Some(c) => Some(c@),
                    None => None,
                },
                bin@,
            ) is None,
        },
{
    let line = chars_of(ps_profile_line(bin).as_str());
    let mut v: Vec<char> = Vec::new();
    match existing {
        Some(content) => {
            let c = chars_of(content);
            if contains_chars(&c, &setup_marker_chars()) {
                return None;
            }
            let mut nl: Vec<char> = Vec::new();
            nl.push('\n');
            if !crate::text::ends_with_chars(&c, &nl) {
                v.push('\n');
            }
            assert(nl@ =~= seq!['\n']);
        },
        None => {},
    }
    let ghost prefix = v@;
    append_chars(&mut v, &line);
    v.push('\n');
    assert(v@ =~= prefix + ps_profile_line_spec(bin@) + seq!['\n']);
    proof {
        if existing is None {
            assert(prefix =~= Seq::<char>::empty());
        }
    }
    Some(string_of(&v))
}

// ---------------------------------------------------------------------------
// Windows user PATH
// ---------------------------------------------------------------------------

/// The user PATH with `bin` appended, or `None` if it already mentions `bin`.
pub open spec fn user_path_with_spec(current: Seq<char>, bin: Seq<char>) -> Option<Seq<char>> {
    if contains(current, bin) {
        None
    } else if current.len() == 0 {
        Some(bin)
    } else {
        Some(current + seq![';'] + bin)
    }
}

/// An entry that does not mention `bin`.
pub open spec fn entry_without(bin: Seq<char>) -> spec_fn(Seq<char>) -> bool {
    |p: Seq<char>| !contains(p, bin)
}

/// The user PATH without every `;`-separated entry that mentions `bin`, or
/// `None` if it does not mention `bin`.
pub open spec fn user_path_without_spec(current: Seq<char>, bin: Seq<char>) -> Option<Seq<char>> {
    if contains(current, bin) {
        Some(
            crate::text::join(
                crate::text::split_on(current, ';').filter(entry_without(bin)),
                seq![';'],
            ),
        )
    } else {
        None
    }
}

/// Appends `bin` to the user PATH value unless it is already there.
pub fn user_path_with(current: &str, bin: &str) -> (r: Option<String>)
    ensures
        match r {
            Some(t) => user_path_with_spec(current@, bin@) == Some(t@),
            None => user_path_with_spec(current@, bin@) is None,
        },
{
    let c = chars_of(current);
    let b = chars_of(bin);
    if contains_chars(&c, &b) {
        return None;
    }
    if c.len() == 0 {
        return Some(string_of(&b));
    }
    let mut v = c.clone();
    v.push(';');
    append_chars(&mut v, &b);
    assert(c@.push(';') =~= c@ + seq![';']);
    Some(string_of(&v))
}

/// Removes every entry that mentions `bin` from the user PATH value.
pub fn user_path_without(current: &str, bin: &str) -> (r: Option<String>)
    ensures
        match r {
            Some(t) => user_path_without_spec(current@, bin@) == Some(t@),
            None => user_path_without_spec(current@, bin@) is None,
        },
{
    let c = chars_of(current);
    let b = chars_of(bin);
    if !contains_chars(&c, &b) {
        return None;
    }
    let parts = crate::text::split_chars(&c, ';');
    let ghost pv = views(parts@);
    let ghost pred = entry_without(bin@);
    let mut kept: Vec<Vec<char>> = Vec::new();
    let mut i: usize = 0;
    while i < parts.len()
        invariant
            i <= parts@.len(),
            pv == views(parts@),
            b@ == bin@,
            pred == entry_without(bin@),
            views(kept@) == pv.take(i as int).filter(pred),
        decreases parts.len() - i,
    {
        assert(pv.take(i + 1) =~= pv.take(i as int).push(parts@[i as int]@));
        proof {
            pv.take(i as int).lemma_filter_push(parts@[i as int]@, pred);
        }
        if !contains_chars(&parts[i], &b) {
            let ghost before = views(kept@);
            let p = parts[i].clone();
            kept.push(p);
            assert(views(kept@) =~= before.push(parts@[i as int]@));
        }
        i += 1;
    }
    assert(pv.take(parts@.len() as int) =~= pv);
    let mut sep: Vec<char> = Vec::new();
    sep.push(';');
    let joined = crate::text::join_chars(&kept, &sep);
    assert(sep@ =~= seq![';']);
    Some(string_of(&joined))
}

// ---------------------------------------------------------------------------
// Laws
// ---------------------------------------------------------------------------

/// A text with no white space at either end is its own trim.
pub proof fn lemma_trim_of_tight(s: Seq<char>)
    requires
        s.len() > 0,
        !crate::text::is_white_space(s[0]),
        !crate::text::is_white_space(s.last()),
    ensures
        trim(s) == s,
{
    assert(crate::text::first_non_ws_from(s, 0) == 0);
    assert(crate::text::end_non_ws_before(s, s.len() as int) == s.len());
    assert(s.subrange(0, s.len() as int) =~= s);
}

/// Restoring undoes disabling: a hook line that does not end in white
/// space, once commented out, is recognised by restoring and comes back
/// unchanged.
pub proof fn lemma_restore_undoes_disable(name: Seq<char>, line: Seq<char>)
    requires
        is_manager_line_spec(name, line),
        !crate::text::is_white_space(line.last()),
    ensures
        edit_touches(ShellEdit::Disable, name, line),
        edit_touches(ShellEdit::Restore, name, edited_line(ShellEdit::Disable, line)),
        edited_line(ShellEdit::Restore, edited_line(ShellEdit::Disable, line)) == line,
{
    let d = comment_prefix() + line;
    assert(edited_line(ShellEdit::Disable, line) == d);
    assert(d[0] == '#');
    assert(line.len() > 0) by {
        if line.len() == 0 {
            assert(trim(line) =~= Seq::<char>::empty());
        }
    }
    assert(d.last() == line.last());
    lemma_trim_of_tight(d);
    assert(d.take(2) =~= comment_prefix());
    assert(d.skip(2) =~= line);
}

/// The edited text is the edited lines, each followed by `'\n'`.
proof fn lemma_edited_text_terminated(edit: ShellEdit, name: Seq<char>, ls: Seq<Seq<char>>)
    ensures
        edited_text(edit, name, ls) == crate::text::terminated(
            ls.map_values(|l: Seq<char>| output_line(edit, name, l)),
        ),
    decreases ls.len(),
{
    let f = |l: Seq<char>| output_line(edit, name, l);
    if ls.len() > 0 {
        lemma_edited_text_terminated(edit, name, ls.drop_last());
        assert(ls.map_values(f).drop_last() =~= ls.drop_last().map_values(f));
    } else {
        assert(ls.map_values(f) =~= Seq::<Seq<char>>::empty());
    }
}

/// A shell-config line that the disable/restore round trip gives back: a
/// hook that does not end in white space, or a line that restoring leaves
/// alone (it is not a commented-out hook).
pub open spec fn round_trips(name: Seq<char>, line: Seq<char>) -> bool {
    if is_manager_line_spec(name, line) {
        !crate::text::is_white_space(line.last())
    } else {
        !edit_touches(ShellEdit::Restore, name, line)
    }
}

/// Restoring a disabled shell config gives it back: for a config without
/// `'\r'`, empty or ending with `'\n'`, whose hooks do not end in white
/// space and which holds no commented-out hook, restoring what disabling
/// wrote yields the original text.
#[verifier::spinoff_prover]
pub proof fn lemma_restore_undoes_disable_text(content: Seq<char>, name: Seq<char>)
    requires
        !content.contains('\r'),
        content.len() == 0 || content.last() == '\n',
        forall|k: int| 0 <= k < lines(content).len() ==> round_trips(name, #[trigger] lines(content)[k]),
    ensures
        edited_text(
            ShellEdit::Restore,
            name,
            lines(edited_text(ShellEdit::Disable, name, lines(content))),
        ) == content,
{
    let ls = lines(content);
    crate::text::lemma_terminated_lines(content);
    let fd = |l: Seq<char>| output_line(ShellEdit::Disable, name, l);
    let fr = |l: Seq<char>| output_line(ShellEdit::Restore, name, l);
    let xs = ls.map_values(fd);
    lemma_edited_text_terminated(ShellEdit::Disable, name, ls);
    assert forall|k: int| 0 <= k < xs.len() implies !(#[trigger] xs[k]).contains('\n') && !xs[k].contains(
        '\r',
    ) by {
        let l = ls[k];
        assert(xs[k] == output_line(ShellEdit::Disable, name, l));
        if xs[k] != l {
            assert(xs[k] == comment_prefix() + l);
            if xs[k].contains('\n') {
                let i = choose|i: int| 0 <= i < xs[k].len() && xs[k][i] == '\n';
                assert(i >= 2);
                assert(l[i - 2] == '\n');
            }
            if xs[k].contains('\r') {
                let i = choose|i: int| 0 <= i < xs[k].len() && xs[k][i] == '\r';
                assert(i >= 2);
                assert(l[i - 2] == '\r');
            }
        }
    }
    crate::text::lemma_lines_terminated(xs);
    lemma_edited_text_terminated(ShellEdit::Restore, name, xs);
    assert forall|k: int| 0 <= k < ls.len() implies #[trigger] xs.map_values(fr)[k] == ls[k] by {
        let l = ls[k];
        assert(round_trips(name, l));
        if is_manager_line_spec(name, l) {
            lemma_restore_undoes_disable(name, l);
        }
    }
    assert(xs.map_values(fr) =~= ls);
}

/// Injecting the PATH into a shell config is idempotent: once the injected
/// text is appended, injecting again appends nothing.
pub proof fn lemma_rc_injection_idempotent(content: Seq<char>, bin: Seq<char>)
    requires
        rc_injection_spec(content, bin) is Some,
    ensures
        rc_injection_spec(content + rc_injection_spec(content, bin)->0, bin) is None,
{
    let added = rc_injection_spec(content, bin)->0;
    let whole = content + added;
    let line = path_export_line_spec(bin);
    let m = setup_marker();
    let pre = newline_if_unterminated(content) + seq!['\n'];
    let o = content.len() + pre.len() + line.len() - m.len();
    assert(added =~= pre + line + seq!['\n']);
    assert(whole.subrange(o, o + m.len()) =~= m);
    assert(crate::text::occurs_at(whole, m, o));
}

/// A text that starts a longer one with the same characters holds no
/// pattern that the longer one does not.
proof fn lemma_contains_prefix(u: Seq<char>, c: Seq<char>, x: Seq<char>)
    requires
        u.len() <= c.len(),
        forall|i: int| 0 <= i < u.len() ==> u[i] == c[i],
        contains(u, x),
    ensures
        contains(c, x),
{
    let o = choose|o: int| occurs_at(u, x, o);
    assert(c.subrange(o, o + x.len()) =~= u.subrange(o, o + x.len()));
    assert(occurs_at(c, x, o));
}

/// The pieces of a text without `'\r'` and without the marker are lines as
/// they are, and none carries the marker.
proof fn lemma_plain_pieces(u: Seq<char>, c: Seq<char>)
    requires
        u.len() <= c.len(),
        forall|i: int| 0 <= i < u.len() ==> u[i] == c[i],
        !contains(c, setup_marker()),
        !c.contains('\r'),
    ensures
        crate::text::split_on(u, '\n').map_values(|l: Seq<char>| crate::text::strip_cr(l))
            == crate::text::split_on(u, '\n'),
        crate::text::split_on(u, '\n').filter(is_unmarked()) == crate::text::split_on(u, '\n'),
{
    let pu = crate::text::split_on(u, '\n');
    crate::text::lemma_split_pieces_occur(u, '\n');
    assert forall|k: int| 0 <= k < pu.len() implies #[trigger] is_unmarked()(pu[k])
        && crate::text::strip_cr(pu[k]) == pu[k] by {
        assert(contains(u, pu[k]));
        let o = choose|o: int| occurs_at(u, pu[k], o);
        if contains(pu[k], setup_marker()) {
            crate::text::lemma_contains_through(u, pu[k], o, setup_marker());
            lemma_contains_prefix(u, c, setup_marker());
        }
        if pu[k].len() > 0 && pu[k].last() == '\r' {
            assert(u.subrange(o, o + pu[k].len())[pu[k].len() - 1] == '\r');
            assert(u[o + pu[k].len() - 1] == '\r');
            assert(c[o + pu[k].len() - 1] == '\r');
        }
    }
    crate::text::lemma_filter_keeps_all(pu, is_unmarked());
    assert(pu.map_values(|l: Seq<char>| crate::text::strip_cr(l)) =~= pu);
}

/// The line added to a shell config holds no newline, ends with `)` and
/// carries the marker.
proof fn lemma_export_line_shape(bin: Seq<char>)
    requires
        !bin.contains('\n'),
    ensures
        !path_export_line_spec(bin).contains('\n'),
        path_export_line_spec(bin).len() > 0,
        path_export_line_spec(bin).last() == ')',
        contains(path_export_line_spec(bin), setup_marker()),
        setup_marker().len() > 0,
{
    reveal_strlit("export PATH=\"");
    reveal_strlit(":$PATH\"  ");
    reveal_strlit("# Added by nodepilot (auto-setup)");
    let m = setup_marker();
    let line = path_export_line_spec(bin);
    let a = "export PATH=\""@;
    let b = ":$PATH\"  "@;
    assert(line =~= a + bin + b + m);
    assert(!line.contains('\n')) by {
        if line.contains('\n') {
            let i = choose|i: int| 0 <= i < line.len() && line[i] == '\n';
            if i < a.len() {
                assert(line[i] == a[i]);
            } else if i < a.len() + bin.len() {
                assert(line[i] == bin[i - a.len()]);
            } else if i < a.len() + bin.len() + b.len() {
                assert(line[i] == b[i - a.len() - bin.len()]);
            } else {
                assert(line[i] == m[i - a.len() - bin.len() - b.len()]);
            }
        }
    }
    assert(contains(line, m)) by {
        let o = line.len() - m.len();
        assert(line.subrange(o, o + m.len()) =~= m);
        assert(occurs_at(line, m, o));
    }
}

/// The pieces of a text, a newline, a blank line and a line without
/// newline, newline-terminated.
proof fn lemma_pieces_after_blank_line(u: Seq<char>, line: Seq<char>)
    requires
        !line.contains('\n'),
    ensures
        crate::text::split_on(u + seq!['\n'] + (seq!['\n'] + line + seq!['\n']), '\n')
            == crate::text::split_on(u, '\n') + seq![Seq::<char>::empty(), line, Seq::<char>::empty()],
{
    let e = Seq::<char>::empty();
    let r = seq!['\n'] + line + seq!['\n'];
    crate::text::lemma_split_on_append(u, r, '\n');
    assert(r =~= e + seq!['\n'] + (line + seq!['\n'] + e));
    crate::text::lemma_split_on_append(e, line + seq!['\n'] + e, '\n');
    crate::text::lemma_split_on_append(line, e, '\n');
    crate::text::lemma_split_on_without_sep(line, '\n');
    assert(crate::text::split_on(e, '\n') =~= seq![e]);
    assert(line + seq!['\n'] + e =~= line + seq!['\n']);
    assert(crate::text::split_on(u, '\n') + (seq![e] + (seq![line] + seq![e])) =~= crate::text::split_on(
        u,
        '\n',
    ) + seq![e, line, e]);
}

/// The lines of a plain text, a blank line and a marked line, once the
/// marked lines are dropped: the plain pieces and the blank line.
proof fn lemma_unmarked_after_blank_line(pu: Seq<Seq<char>>, line: Seq<char>)
    requires
        pu.filter(is_unmarked()) == pu,
        contains(line, setup_marker()),
        setup_marker().len() > 0,
    ensures
        (pu + seq![Seq::<char>::empty(), line]).filter(is_unmarked()) == pu + seq![Seq::<char>::empty()],
{
    let e = Seq::<char>::empty();
    let pred = is_unmarked();
    assert(!contains(e, setup_marker()));
    Seq::<Seq<char>>::filter_distributes_over_add(pu, seq![e, line], pred);
    Seq::<Seq<char>>::filter_distributes_over_add(seq![e], seq![line], pred);
    assert(seq![e] + seq![line] =~= seq![e, line]);
    Seq::<Seq<char>>::empty().lemma_filter_push(e, pred);
    Seq::<Seq<char>>::empty().lemma_filter_push(line, pred);
    assert(Seq::<Seq<char>>::empty().filter(pred) =~= Seq::<Seq<char>>::empty()) by {
        reveal(Seq::filter);
    }
    assert(Seq::<Seq<char>>::empty().push(e) =~= seq![e]);
    assert(Seq::<Seq<char>>::empty().push(line) =~= seq![line]);
    assert(seq![e].filter(pred) =~= seq![e]);
    assert(seq![line].filter(pred) =~= Seq::<Seq<char>>::empty());
    assert(pu + seq![e] + Seq::<Seq<char>>::empty() =~= pu + seq![e]);
}

/// The lines of a plain text `u`, a newline, a blank line and a line
/// without newline or final `'\r'`, newline-terminated.
proof fn lemma_lines_after_blank_line(u: Seq<char>, line: Seq<char>)
    requires
        !line.contains('\n'),
        line.len() > 0,
        line.last() != '\r',
        crate::text::split_on(u, '\n').map_values(|l: Seq<char>| crate::text::strip_cr(l))
            == crate::text::split_on(u, '\n'),
    ensures
        lines(u + seq!['\n'] + (seq!['\n'] + line + seq!['\n'])) == crate::text::split_on(u, '\n')
            + seq![Seq::<char>::empty(), line],
{
    let e = Seq::<char>::empty();
    let whole = u + seq!['\n'] + (seq!['\n'] + line + seq!['\n']);
    lemma_pieces_after_blank_line(u, line);
    let pu = crate::text::split_on(u, '\n');
    let p = crate::text::split_on(whole, '\n');
    assert(p.drop_last() =~= pu + seq![e, line]);
    let body = p.drop_last().map_values(|l: Seq<char>| crate::text::strip_cr(l));
    assert forall|k: int| 0 <= k < body.len() implies body[k] == (pu + seq![e, line])[k] by {
        if k < pu.len() {
            assert(pu.map_values(|l: Seq<char>| crate::text::strip_cr(l))[k] == pu[k]);
        }
    }
    assert(body =~= pu + seq![e, line]);
}

/// Dropping the marked lines from a plain text `u`, a newline, a blank
/// line and a marked line leaves `u`, a newline and the blank line.
proof fn lemma_remove_after_blank_line(u: Seq<char>, line: Seq<char>)
    requires
        !line.contains('\n'),
        line.len() > 0,
        line.last() != '\r',
        contains(line, setup_marker()),
        setup_marker().len() > 0,
        crate::text::split_on(u, '\n').map_values(|l: Seq<char>| crate::text::strip_cr(l))
            == crate::text::split_on(u, '\n'),
        crate::text::split_on(u, '\n').filter(is_unmarked()) == crate::text::split_on(u, '\n'),
    ensures
        without_marked_lines_spec(u + seq!['\n'] + (seq!['\n'] + line + seq!['\n'])) == Some(
            u + seq!['\n', '\n'],
        ),
{
    let e = Seq::<char>::empty();
    let whole = u + seq!['\n'] + (seq!['\n'] + line + seq!['\n']);
    let pu = crate::text::split_on(u, '\n');
    lemma_lines_after_blank_line(u, line);
    lemma_unmarked_after_blank_line(pu, line);
    let kept = unmarked_lines(lines(whole));
    assert(kept == pu + seq![e]);
    crate::text::lemma_split_on_nonempty(u, '\n');
    crate::text::lemma_join_split(u, '\n');
    assert(kept.drop_last() =~= pu);
    assert(crate::text::join(kept, seq!['\n']) == crate::text::join(pu, seq!['\n']) + seq!['\n']
        + e);
    assert(contains(whole, setup_marker())) by {
        let o = choose|o: int| occurs_at(line, setup_marker(), o);
        let o2 = u.len() + 2 + o;
        assert(whole.subrange(o2, o2 + setup_marker().len()) =~= line.subrange(
            o,
            o + setup_marker().len(),
        ));
        assert(occurs_at(whole, setup_marker(), o2));
    }
    assert(crate::text::join(kept, seq!['\n']) + seq!['\n'] =~= u + seq!['\n', '\n']);
}

/// Removing the setup's lines undoes an injection: a shell config without
/// `'\r'` and without the marker comes back, terminated by a `'\n'`,
/// followed by the blank line that the injection put before its own line.
#[verifier::spinoff_prover]
pub proof fn lemma_rc_removal_undoes_injection(content: Seq<char>, bin: Seq<char>)
    requires
        !contains(content, setup_marker()),
        !content.contains('\r'),
        !bin.contains('\n'),
    ensures
        rc_injection_spec(content, bin) is Some,
        without_marked_lines_spec(content + rc_injection_spec(content, bin)->0) == Some(
            content + newline_if_unterminated(content) + seq!['\n'],
        ),
{
    let line = path_export_line_spec(bin);
    let t = content + newline_if_unterminated(content);
    assert(t.len() > 0 && t.last() == '\n') by {
        if ends_with(content, seq!['\n']) {
            assert(content.skip(content.len() - 1)[0] == '\n');
        }
    }
    let u = t.drop_last();
    assert(t =~= u + seq!['\n']);
    assert(u.len() <= content.len());
    assert forall|i: int| 0 <= i < u.len() implies u[i] == content[i] by {}
    let w = u + seq!['\n'] + (seq!['\n'] + line + seq!['\n']);
    assert(without_marked_lines_spec(w) == Some(u + seq!['\n', '\n'])) by {
        lemma_export_line_shape(bin);
        lemma_plain_pieces(u, content);
        lemma_remove_after_blank_line(u, line);
    }
    assert(content + rc_injection_spec(content, bin)->0 == w) by {
        assert(content + rc_injection_spec(content, bin)->0 =~= w);
    }
    assert(t + seq!['\n'] =~= u + seq!['\n', '\n']);
}

/// The line added to a PowerShell profile holds no newline, ends with `)`
/// and carries the marker.
proof fn lemma_ps_line_shape(bin: Seq<char>)
    requires
        !bin.contains('\n'),
    ensures
        !ps_profile_line_spec(bin).contains('\n'),
        ps_profile_line_spec(bin).len() > 0,
        ps_profile_line_spec(bin).last() == ')',
        contains(ps_profile_line_spec(bin), setup_marker()),
        setup_marker().len() > 0,
{
    reveal_strlit("$env:Path = \"");
    reveal_strlit(";\" + $env:Path  ");
    reveal_strlit("# Added by nodepilot (auto-setup)");
    let m = setup_marker();
    let line = ps_profile_line_spec(bin);
    let a = "$env:Path = \""@;
    let b = ";\" + $env:Path  "@;
    assert(line =~= a + bin + b + m);
    assert(!line.contains('\n')) by {
        if line.contains('\n') {
            let i = choose|i: int| 0 <= i < line.len() && line[i] == '\n';
            if i < a.len() {
                assert(line[i] == a[i]);
            } else if i < a.len() + bin.len() {
                assert(line[i] == bin[i - a.len()]);
            } else if i < a.len() + bin.len() + b.len() {
                assert(line[i] == b[i - a.len() - bin.len()]);
            } else {
                assert(line[i] == m[i - a.len() - bin.len() - b.len()]);
            }
        }
    }
    assert(contains(line, m)) by {
        let o = line.len() - m.len();
        assert(line.subrange(o, o + m.len()) =~= m);
        assert(occurs_at(line, m, o));
    }
}

/// Dropping the marked lines from a plain text `u`, a newline and a marked
/// line leaves `u` and its newline.
proof fn lemma_remove_marked_last_line(u: Seq<char>, line: Seq<char>)
    requires
        !line.contains('\n'),
        line.len() > 0,
        line.last() != '\r',
        contains(line, setup_marker()),
        setup_marker().len() > 0,
        crate::text::split_on(u, '\n').map_values(|l: Seq<char>| crate::text::strip_cr(l))
            == crate::text::split_on(u, '\n'),
        crate::text::split_on(u, '\n').filter(is_unmarked()) == crate::text::split_on(u, '\n'),
    ensures
        without_marked_lines_spec(u + seq!['\n'] + (line + seq!['\n'])) == Some(u + seq!['\n']),
{
    let e = Seq::<char>::empty();
    let whole = u + seq!['\n'] + (line + seq!['\n']);
    let pu = crate::text::split_on(u, '\n');
    let pred = is_unmarked();
    // Pieces and lines.
    crate::text::lemma_split_on_append(u, line + seq!['\n'] + e, '\n');
    crate::text::lemma_split_on_append(line, e, '\n');
    crate::text::lemma_split_on_without_sep(line, '\n');
    assert(crate::text::split_on(e, '\n') =~= seq![e]);
    assert(line + seq!['\n'] + e =~= line + seq!['\n']);
    assert(whole =~= u + seq!['\n'] + (line + seq!['\n'] + e));
    let p = crate::text::split_on(whole, '\n');
    assert(p =~= pu + seq![line, e]);
    assert(p.drop_last() =~= pu + seq![line]);
    let body = p.drop_last().map_values(|l: Seq<char>| crate::text::strip_cr(l));
    assert forall|k: int| 0 <= k < body.len() implies body[k] == (pu + seq![line])[k] by {
        if k < pu.len() {
            assert(pu.map_values(|l: Seq<char>| crate::text::strip_cr(l))[k] == pu[k]);
        }
    }
    assert(lines(whole) =~= pu + seq![line]);
    // Without the marked line.
    Seq::<Seq<char>>::filter_distributes_over_add(pu, seq![line], pred);
    Seq::<Seq<char>>::empty().lemma_filter_push(line, pred);
    assert(Seq::<Seq<char>>::empty().filter(pred) =~= Seq::<Seq<char>>::empty()) by {
        reveal(Seq::filter);
    }
    assert(Seq::<Seq<char>>::empty().push(line) =~= seq![line]);
    assert(seq![line].filter(pred) =~= Seq::<Seq<char>>::empty());
    assert(unmarked_lines(lines(whole)) =~= pu);
    crate::text::lemma_join_split(u, '\n');
    assert(contains(whole, setup_marker())) by {
        let o = choose|o: int| occurs_at(line, setup_marker(), o);
        let o2 = u.len() + 1 + o;
        assert(whole.subrange(o2, o2 + setup_marker().len()) =~= line.subrange(
            o,
            o + setup_marker().len(),
        ));
        assert(occurs_at(whole, setup_marker(), o2));
    }
}

/// Removing the setup's lines undoes a PowerShell-profile injection: a
/// profile without `'\r'` and without the marker comes back, terminated by
/// a `'\n'`.
#[verifier::spinoff_prover]
pub proof fn lemma_ps_removal_undoes_injection(content: Seq<char>, bin: Seq<char>)
    requires
        !contains(content, setup_marker()),
        !content.contains('\r'),
        !bin.contains('\n'),
    ensures
        ps_profile_injection_spec(Some(content), bin) is Some,
        without_marked_lines_spec(content + ps_profile_injection_spec(Some(content), bin)->0)
            == Some(content + newline_if_unterminated(content)),
{
    let line = ps_profile_line_spec(bin);
    let t = content + newline_if_unterminated(content);
    assert(t.len() > 0 && t.last() == '\n') by {
        if ends_with(content, seq!['\n']) {
            assert(content.skip(content.len() - 1)[0] == '\n');
        }
    }
    let u = t.drop_last();
    assert(t =~= u + seq!['\n']);
    assert(u.len() <= content.len());
    assert forall|i: int| 0 <= i < u.len() implies u[i] == content[i] by {}
    let w = u + seq!['\n'] + (line + seq!['\n']);
    assert(without_marked_lines_spec(w) == Some(u + seq!['\n'])) by {
        lemma_ps_line_shape(bin);
        lemma_plain_pieces(u, content);
        lemma_remove_marked_last_line(u, line);
    }
    assert(content + ps_profile_injection_spec(Some(content), bin)->0 == w) by {
        assert(content + ps_profile_injection_spec(Some(content), bin)->0 =~= w);
    }
}

/// The pieces of `u` between newlines, each without a final `'\r'`.
pub open spec fn stripped_pieces(u: Seq<char>) -> Seq<Seq<char>> {
    crate::text::split_on(u, '\n').map_values(|l: Seq<char>| crate::text::strip_cr(l))
}

/// A line that carries the marker.
pub open spec fn is_marked() -> spec_fn(Seq<char>) -> bool {
    |l: Seq<char>| contains(l, setup_marker())
}

/// The lines of a text that starts another text without the marker carry
/// no marker.
proof fn lemma_unmarked_line_pieces(u: Seq<char>, c: Seq<char>)
    requires
        u.len() <= c.len(),
        forall|i: int| 0 <= i < u.len() ==> u[i] == c[i],
        !contains(c, setup_marker()),
    ensures
        stripped_pieces(u).filter(is_unmarked()) == stripped_pieces(u),
        stripped_pieces(u).filter(is_marked()) == Seq::<Seq<char>>::empty(),
{
    let pu = crate::text::split_on(u, '\n');
    let sm = stripped_pieces(u);
    let m = setup_marker();
    crate::text::lemma_split_pieces_occur(u, '\n');
    assert forall|k: int| 0 <= k < sm.len() implies !contains(#[trigger] sm[k], m) by {
        let x = pu[k];
        assert(sm[k] == crate::text::strip_cr(x));
        assert(contains(u, x));
        let o = choose|o: int| occurs_at(u, x, o);
        if contains(sm[k], m) {
            let q = choose|q: int| occurs_at(sm[k], m, q);
            assert(x.subrange(q, q + m.len()) =~= sm[k].subrange(q, q + m.len()));
            assert(occurs_at(x, m, q));
            crate::text::lemma_contains_through(u, x, o, m);
            lemma_contains_prefix(u, c, m);
        }
    }
    assert forall|k: int| 0 <= k < sm.len() implies #[trigger] is_unmarked()(sm[k]) by {}
    crate::text::lemma_filter_keeps_all(sm, is_unmarked());
    let f = sm.filter(is_marked());
    if f.len() > 0 {
        sm.lemma_filter_pred(is_marked(), 0);
        assert(sm.filter(is_marked()).contains(f[0]));
        sm.lemma_filter_contains_rev(is_marked(), f[0]);
        let k = choose|k: int| 0 <= k < sm.len() && sm[k] == f[0];
        assert(!contains(sm[k], m));
    }
    assert(f =~= Seq::<Seq<char>>::empty());
}

/// The lines of `u`, a newline, then a line without newline ending in `)`
/// and a newline: the lines of `u` and its newline, then that line.
proof fn lemma_lines_then_line(u: Seq<char>, line: Seq<char>)
    requires
        !line.contains('\n'),
        line.len() > 0,
        line.last() == ')',
    ensures
        lines(u + seq!['\n'] + (line + seq!['\n'])) == lines(u + seq!['\n']) + seq![line],
        lines(u + seq!['\n']) == stripped_pieces(u),
{
    let e = Seq::<char>::empty();
    let whole = u + seq!['\n'] + (line + seq!['\n']);
    let t = u + seq!['\n'];
    let pu = crate::text::split_on(u, '\n');
    let sm = stripped_pieces(u);
    crate::text::lemma_split_on_append(line, e, '\n');
    crate::text::lemma_split_on_without_sep(line, '\n');
    assert(crate::text::split_on(e, '\n') =~= seq![e]);
    assert(whole =~= u + seq!['\n'] + (line + seq!['\n'] + e));
    crate::text::lemma_split_on_append(u, line + seq!['\n'] + e, '\n');
    assert(t =~= u + seq!['\n'] + e);
    crate::text::lemma_split_on_append(u, e, '\n');
    assert(line + seq!['\n'] + e =~= line + seq!['\n']);
    let p = crate::text::split_on(whole, '\n');
    assert(p =~= pu + seq![line, e]);
    assert(p.drop_last() =~= pu + seq![line]);
    assert(crate::text::strip_cr(line) == line);
    let body = p.drop_last().map_values(|l: Seq<char>| crate::text::strip_cr(l));
    assert forall|k: int| 0 <= k < body.len() implies body[k] == (sm + seq![line])[k] by {
        if k < pu.len() {
            assert(body[k] == crate::text::strip_cr(pu[k]));
        }
    }
    assert(lines(whole) =~= sm + seq![line]);
    assert(crate::text::split_on(t, '\n') =~= pu + seq![e]);
    assert(crate::text::split_on(t, '\n').drop_last() =~= pu);
    assert(lines(t) =~= sm);
}

/// The marked and unmarked lines of unmarked lines followed by the marked
/// line.
proof fn lemma_marked_split(sm: Seq<Seq<char>>, line: Seq<char>)
    requires
        sm.filter(is_unmarked()) == sm,
        sm.filter(is_marked()) == Seq::<Seq<char>>::empty(),
        contains(line, setup_marker()),
    ensures
        (sm + seq![line]).filter(is_marked()) == seq![line],
        (sm + seq![line]).filter(is_unmarked()) == sm,
{
    assert(is_marked()(line));
    assert(!is_unmarked()(line));
    Seq::<Seq<char>>::empty().lemma_filter_push(line, is_marked());
    Seq::<Seq<char>>::empty().lemma_filter_push(line, is_unmarked());
    assert(Seq::<Seq<char>>::empty().filter(is_marked()) =~= Seq::<Seq<char>>::empty()) by {
        reveal(Seq::filter);
    }
    assert(Seq::<Seq<char>>::empty().filter(is_unmarked()) =~= Seq::<Seq<char>>::empty()) by {
        reveal(Seq::filter);
    }
    assert(Seq::<Seq<char>>::empty().push(line) =~= seq![line]);
    assert(seq![line].filter(is_marked()) =~= seq![line]);
    assert(seq![line].filter(is_unmarked()) =~= Seq::<Seq<char>>::empty());
    Seq::<Seq<char>>::filter_distributes_over_add(sm, seq![line], is_marked());
    Seq::<Seq<char>>::filter_distributes_over_add(sm, seq![line], is_unmarked());
    assert(Seq::<Seq<char>>::empty() + seq![line] =~= seq![line]);
    assert(sm + Seq::<Seq<char>>::empty() =~= sm);
}

/// No line of `sm` carries the marker.
#[verifier::opaque]
pub open spec fn lines_unmarked(sm: Seq<Seq<char>>) -> bool {
    sm.filter(is_unmarked()) == sm && sm.filter(is_marked()) == Seq::<Seq<char>>::empty()
}

/// Lines that are unmarked lines followed by a marked line: that line is
/// the only marked one, and the others are the unmarked lines.
#[verifier::spinoff_prover]
proof fn lemma_marked_split_of(ls: Seq<Seq<char>>, sm: Seq<Seq<char>>, line: Seq<char>)
    requires
        ls == sm + seq![line],
        lines_unmarked(sm),
        contains(line, setup_marker()),
    ensures
        ls.filter(is_marked()) == seq![line],
        unmarked_lines(ls) == sm,
{
    reveal(lines_unmarked);
    lemma_marked_split(sm, line);
}

/// A text `u` whose lines carry no marker, a newline, then a marked line and
/// a newline: the marked line is the only marked line, and the other lines
/// are those of `u` and its newline.
proof fn lemma_marked_line_after(u: Seq<char>, line: Seq<char>)
    requires
        lines_unmarked(stripped_pieces(u)),
        !line.contains('\n'),
        line.len() > 0,
        line.last() == ')',
        contains(line, setup_marker()),
    ensures
        lines(u + seq!['\n'] + (line + seq!['\n'])).filter(is_marked()) == seq![line],
        unmarked_lines(lines(u + seq!['\n'] + (line + seq!['\n']))) == lines(u + seq!['\n']),
{
    let w = u + seq!['\n'] + (line + seq!['\n']);
    let sm = stripped_pieces(u);
    assert(lines(w) == sm + seq![line] && lines(u + seq!['\n']) == sm) by {
        lemma_lines_then_line(u, line);
    }
    lemma_marked_split_of(lines(w), sm, line);
}

/// Appending a marked line (after a newline if the text lacks a final one)
/// to a text without the marker: the marked line is the only marked line,
/// and the other lines are the text's, newline-terminated.
proof fn lemma_append_marked_line(c: Seq<char>, line: Seq<char>)
    requires
        !contains(c, setup_marker()),
        !line.contains('\n'),
        line.len() > 0,
        line.last() == ')',
        contains(line, setup_marker()),
    ensures
        lines(c + (newline_if_unterminated(c) + line + seq!['\n'])).filter(is_marked()) == seq![line],
        unmarked_lines(lines(c + (newline_if_unterminated(c) + line + seq!['\n']))) == lines(
            c + newline_if_unterminated(c),
        ),
{
    let t = c + newline_if_unterminated(c);
    assert(t.len() > 0 && t.last() == '\n') by {
        if ends_with(c, seq!['\n']) {
            assert(c.skip(c.len() - 1)[0] == '\n');
        }
    }
    let u = t.drop_last();
    assert(t == u + seq!['\n']) by {
        assert(t =~= u + seq!['\n']);
    }
    let w = u + seq!['\n'] + (line + seq!['\n']);
    assert(c + (newline_if_unterminated(c) + line + seq!['\n']) == w) by {
        assert(c + (newline_if_unterminated(c) + line + seq!['\n']) =~= w);
    }
    assert(lines_unmarked(stripped_pieces(u))) by {
        assert(u.len() <= c.len());
        assert forall|i: int| 0 <= i < u.len() implies u[i] == c[i] by {}
        lemma_unmarked_line_pieces(u, c);
        reveal(lines_unmarked);
    }
    lemma_marked_line_after(u, line);
}

/// A marked line alone, newline-terminated: its only line.
proof fn lemma_marked_line_alone(line: Seq<char>)
    requires
        !line.contains('\n'),
        line.len() > 0,
        line.last() == ')',
        contains(line, setup_marker()),
    ensures
        lines(line + seq!['\n']) == seq![line],
        lines(line + seq!['\n']).filter(is_marked()) == seq![line],
        unmarked_lines(lines(line + seq!['\n'])) == Seq::<Seq<char>>::empty(),
{
    let e = Seq::<char>::empty();
    let whole = line + seq!['\n'];
    crate::text::lemma_split_on_append(line, e, '\n');
    crate::text::lemma_split_on_without_sep(line, '\n');
    assert(crate::text::split_on(e, '\n') =~= seq![e]);
    assert(whole =~= line + seq!['\n'] + e);
    let p = crate::text::split_on(whole, '\n');
    assert(p =~= seq![line, e]);
    assert(p.drop_last() =~= seq![line]);
    assert(crate::text::strip_cr(line) == line);
    assert(lines(whole) =~= seq![line]);
    assert(Seq::<Seq<char>>::empty().filter(is_unmarked()) =~= Seq::<Seq<char>>::empty()) by {
        reveal(Seq::filter);
    }
    assert(Seq::<Seq<char>>::empty().filter(is_marked()) =~= Seq::<Seq<char>>::empty()) by {
        reveal(Seq::filter);
    }
    lemma_marked_split(Seq::<Seq<char>>::empty(), line);
    assert(Seq::<Seq<char>>::empty() + seq![line] =~= seq![line]);
}

/// After a PowerShell-profile injection into an existing profile, the
/// profile has exactly one line with the marker, the added one, and its
/// other lines are the profile's lines as they were (newline-terminated).
pub proof fn lemma_ps_injection_single_marked_line(content: Seq<char>, bin: Seq<char>)
    requires
        !contains(content, setup_marker()),
        !bin.contains('\n'),
    ensures
        ps_profile_injection_spec(Some(content), bin) is Some,
        lines(content + ps_profile_injection_spec(Some(content), bin)->0).filter(is_marked())
            == seq![ps_profile_line_spec(bin)],
        unmarked_lines(lines(content + ps_profile_injection_spec(Some(content), bin)->0)) == lines(
            content + newline_if_unterminated(content),
        ),
{
    lemma_ps_line_shape(bin);
    lemma_append_marked_line(content, ps_profile_line_spec(bin));
}

/// A PowerShell profile created by the injection holds exactly the added
/// line, which carries the marker.
pub proof fn lemma_ps_new_profile_single_marked_line(bin: Seq<char>)
    requires
        !bin.contains('\n'),
    ensures
        ps_profile_injection_spec(None, bin) is Some,
        lines(ps_profile_injection_spec(None, bin)->0) == seq![ps_profile_line_spec(bin)],
        lines(ps_profile_injection_spec(None, bin)->0).filter(is_marked()) == seq![
            ps_profile_line_spec(bin),
        ],
        unmarked_lines(lines(ps_profile_injection_spec(None, bin)->0)) == Seq::<Seq<char>>::empty(),
{
    lemma_ps_line_shape(bin);
    lemma_marked_line_alone(ps_profile_line_spec(bin));
}

/// Injecting the PATH into a PowerShell profile is idempotent: once the
/// injected text is appended (or written as the new profile), injecting
/// again appends nothing.
pub proof fn lemma_ps_injection_idempotent(existing: Option<Seq<char>>, bin: Seq<char>)
    requires
        ps_profile_injection_spec(existing, bin) is Some,
    ensures
        ps_profile_injection_spec(
            Some(
                match existing {
                    Some(c) => c,
                    None => Seq::<char>::empty(),
                } + ps_profile_injection_spec(existing, bin)->0,
            ),
            bin,
        ) is None,
{
    let c = match existing {
        Some(c) => c,
        None => Seq::<char>::empty(),
    };
    let added = ps_profile_injection_spec(existing, bin)->0;
    let whole = c + added;
    let line = ps_profile_line_spec(bin);
    let m = setup_marker();
    let pre = match existing {
        Some(x) => newline_if_unterminated(x),
        None => Seq::<char>::empty(),
    };
    assert(added =~= pre + line + seq!['\n']);
    let o = c.len() + pre.len() + line.len() - m.len();
    assert(whole.subrange(o, o + m.len()) =~= m);
    assert(occurs_at(whole, m, o));
}

/// Removing the setup's lines after a PowerShell-profile injection keeps
/// every other line of the profile, in order: the result is the profile's
/// own lines (as line reading gives them, without a final `'\r'`) joined by
/// `'\n'`, with a final `'\n'`.
pub proof fn lemma_ps_removal_keeps_profile_lines(content: Seq<char>, bin: Seq<char>)
    requires
        !contains(content, setup_marker()),
        !bin.contains('\n'),
    ensures
        ps_profile_injection_spec(Some(content), bin) is Some,
        without_marked_lines_spec(content + ps_profile_injection_spec(Some(content), bin)->0)
            == Some(
            crate::text::join(lines(content + newline_if_unterminated(content)), seq!['\n'])
                + seq!['\n'],
        ),
{
    lemma_ps_injection_single_marked_line(content, bin);
    lemma_ps_injection_idempotent(Some(content), bin);
}

/// Adding `bin` to the user PATH is idempotent: once added, adding again
/// changes nothing.
pub proof fn lemma_user_path_with_idempotent(current: Seq<char>, bin: Seq<char>)
    requires
        user_path_with_spec(current, bin) is Some,
    ensures
        user_path_with_spec(user_path_with_spec(current, bin)->0, bin) is None,
{
    let w = user_path_with_spec(current, bin)->0;
    let o: int = if current.len() == 0 {
        0
    } else {
        current.len() as int + 1
    };
    assert(w.subrange(o, o + bin.len()) =~= bin);
    assert(occurs_at(w, bin, o));
}

/// No piece of a PATH that does not mention `bin` mentions it.
proof fn lemma_pieces_without(current: Seq<char>, bin: Seq<char>)
    requires
        !contains(current, bin),
    ensures
        crate::text::split_on(current, ';').filter(entry_without(bin)) == crate::text::split_on(
            current,
            ';',
        ),
{
    let pc = crate::text::split_on(current, ';');
    crate::text::lemma_split_pieces_occur(current, ';');
    assert forall|k: int| 0 <= k < pc.len() implies #[trigger] entry_without(bin)(pc[k]) by {
        assert(contains(current, pc[k]));
        let o = choose|o: int| crate::text::occurs_at(current, pc[k], o);
        if contains(pc[k], bin) {
            crate::text::lemma_contains_through(current, pc[k], o, bin);
        }
    }
    crate::text::lemma_filter_keeps_all(pc, entry_without(bin));
}

/// A single piece that mentions `bin` is filtered out.
proof fn lemma_bin_filtered(bin: Seq<char>)
    ensures
        seq![bin].filter(entry_without(bin)) == Seq::<Seq<char>>::empty(),
{
    assert(contains(bin, bin)) by {
        assert(bin.subrange(0, bin.len() as int) =~= bin);
        assert(crate::text::occurs_at(bin, bin, 0));
    }
    Seq::<Seq<char>>::empty().lemma_filter_push(bin, entry_without(bin));
    assert(Seq::<Seq<char>>::empty().push(bin) =~= seq![bin]);
    assert(Seq::<Seq<char>>::empty().filter(entry_without(bin)) =~= Seq::<Seq<char>>::empty()) by {
        reveal(Seq::filter);
    }
}

/// Removing `bin` from the user PATH undoes adding it: when the PATH did
/// not mention `bin` and `bin` holds no `;`, adding then removing gives the
/// PATH back.
pub proof fn lemma_user_path_roundtrip(current: Seq<char>, bin: Seq<char>)
    requires
        !contains(current, bin),
        !bin.contains(';'),
    ensures
        user_path_with_spec(current, bin) is Some,
        user_path_without_spec(user_path_with_spec(current, bin)->0, bin) == Some(current),
{
    let w = user_path_with_spec(current, bin)->0;
    crate::text::lemma_split_on_without_sep(bin, ';');
    lemma_bin_filtered(bin);
    if current.len() == 0 {
        assert(w == bin);
        assert(contains(bin, bin)) by {
            assert(bin.subrange(0, bin.len() as int) =~= bin);
            assert(crate::text::occurs_at(bin, bin, 0));
        }
        assert(crate::text::join(Seq::<Seq<char>>::empty(), seq![';']) =~= current);
    } else {
        assert(w == current + seq![';'] + bin);
        assert(contains(w, bin)) by {
            let o: int = current.len() as int + 1;
            assert(w.subrange(o, o + bin.len()) =~= bin);
            assert(crate::text::occurs_at(w, bin, o));
        }
        crate::text::lemma_split_on_append(current, bin, ';');
        let pc = crate::text::split_on(current, ';');
        lemma_pieces_without(current, bin);
        Seq::<Seq<char>>::filter_distributes_over_add(pc, seq![bin], entry_without(bin));
        assert((pc + seq![bin]).filter(entry_without(bin)) =~= pc);
        crate::text::lemma_join_split(current, ';');
    }
}

/// The `PATH` a launchd agent sets: `bin` first, then the existing value.
pub open spec fn launchd_path_spec(bin: Seq<char>, existing: Seq<char>) -> Seq<char> {
    bin + seq![':'] + existing
}

/// The `PATH` a launchd agent sets.
pub fn launchd_path(bin: &str, existing: &str) -> (p: String)
    ensures
        p@ == launchd_path_spec(bin@, existing@),
{
    let mut v = chars_of(bin);
    v.push(':');
    append_chars(&mut v, &chars_of(existing));
    assert(bin@.push(':') =~= bin@ + seq![':']);
    string_of(&v)
}

// ---------------------------------------------------------------------------
// launchd agent
// ---------------------------------------------------------------------------

/// A value in a property list.
pub enum PlistValue {
    Text(String),
    Flag(bool),
    List(Vec<String>),
}

/// The contents of a property-list value.
pub enum PlistValueView {
    Text(Seq<char>),
    Flag(bool),
    List(Seq<Seq<char>>),
}

impl View for PlistValue {
    type V = PlistValueView;

    open spec fn view(&self) -> PlistValueView {
        match self {
            PlistValue::Text(s) => PlistValueView::Text(s@),
            PlistValue::Flag(b) => PlistValueView::Flag(*b),
            PlistValue::List(v) => PlistValueView::List(
                crate::commands::dev_server::strings_view(v@),
            ),
        }
    }
}

/// The contents of a dictionary's entries, in order.
pub open spec fn plist_entries_view(es: Seq<(String, PlistValue)>) -> Seq<(Seq<char>, PlistValueView)> {
    es.map_values(|e: (String, PlistValue)| (e.0@, e.1@))
}

/// Why a property list could not be written.
pub enum PlistFailure {
    /// Serialising to XML failed.
    Serialize(String),
    /// The XML was not UTF-8.
    Utf8(String),
}

/// The contents of a property-list failure.
pub enum PlistFailureView {
    Serialize(Seq<char>),
    Utf8(Seq<char>),
}

/// The XML text of the dictionary with the given entries, as the `plist`
/// crate writes it, or why it could not.
pub uninterp spec fn plist_dict_xml_text(entries: Seq<(Seq<char>, PlistValueView)>) -> Result<
    Seq<char>,
    PlistFailureView,
>;

/// `plist::to_writer_xml` on a `plist::Value::Dictionary` built from the
/// entries in order, then `String::from_utf8`. Claimed: the outcome is a
/// function of the entries alone (`plist_dict_xml_text`).
#[verifier::external_body]
fn plist_dict_xml(entries: &Vec<(String, PlistValue)>) -> (r: Result<String, PlistFailure>)
    ensures
        plist_dict_xml_text(plist_entries_view(entries@)) == match r {
            Ok(x) => Ok(x@),
            Err(PlistFailure::Serialize(m)) => Err(PlistFailureView::Serialize(m@)),
            Err(PlistFailure::Utf8(m)) => Err(PlistFailureView::Utf8(m@)),
        },
{
    let mut dict = plist::Dictionary::new();
    for (k, v) in entries.iter() {
        dict.insert(k.clone(), match v {
            PlistValue::Text(s) => plist::Value::String(s.clone()),
            PlistValue::Flag(b) => plist::Value::Boolean(*b),
            PlistValue::List(xs) => plist::Value::Array(xs.iter().cloned().map(plist::Value::String).collect()),
        });
    }
    let mut buf: Vec<u8> = Vec::new();
    if let Err(e) = plist::to_writer_xml(&mut buf, &plist::Value::Dictionary(dict)) {
        return Err(PlistFailure::Serialize(e.to_string()));
    }
    String::from_utf8(buf).map_err(|e| PlistFailure::Utf8(e.to_string()))
}

/// The entries of the launchd agent that sets `PATH` for GUI sessions: its
/// label, `launchctl setenv PATH <bin>:<existing>`, run at load, in Aqua
/// sessions only.
pub open spec fn launchd_agent_entries(bin: Seq<char>, existing: Seq<char>) -> Seq<
    (Seq<char>, PlistValueView),
> {
    seq![
        ("Label"@, PlistValueView::Text("com.nodepilot.env"@)),
        (
            "ProgramArguments"@,
            PlistValueView::List(
                seq!["/bin/launchctl"@, "setenv"@, "PATH"@, launchd_path_spec(bin, existing)],
            ),
        ),
        ("RunAtLoad"@, PlistValueView::Flag(true)),
        ("LimitLoadToSessionType"@, PlistValueView::Text("Aqua"@)),
    ]
}

/// The launchd agent's property list, or the error setup reports.
pub fn launchd_agent_plist(bin: &str, existing: &str) -> (r: Result<String, EnvSetupError>)
    ensures
        match plist_dict_xml_text(launchd_agent_entries(bin@, existing@)) {
            Ok(x) => r matches Ok(t) && t@ == x,
            Err(PlistFailureView::Serialize(m)) => r matches Err(EnvSetupError::Plist(t)) && t@
                == "serialize plist: "@ + m,
            Err(PlistFailureView::Utf8(m)) => r matches Err(EnvSetupError::Plist(t)) && t@
                == "plist XML is not valid UTF-8: "@ + m,
        },
{
    let mut args: Vec<String> = Vec::new();
    args.push(String::from_str("/bin/launchctl"));
    args.push(String::from_str("setenv"));
    args.push(String::from_str("PATH"));
    args.push(launchd_path(bin, existing));
    let mut entries: Vec<(String, PlistValue)> = Vec::new();
    entries.push((String::from_str("Label"), PlistValue::Text(String::from_str("com.nodepilot.env"))));
    entries.push((String::from_str("ProgramArguments"), PlistValue::List(args)));
    entries.push((String::from_str("RunAtLoad"), PlistValue::Flag(true)));
    entries.push((String::from_str("LimitLoadToSessionType"), PlistValue::Text(String::from_str("Aqua"))));
    assert(plist_entries_view(entries@) =~= launchd_agent_entries(bin@, existing@)) by {
        assert(crate::commands::dev_server::strings_view(entries@[1].1->List_0@) =~= seq![
            "/bin/launchctl"@,
            "setenv"@,
            "PATH"@,
            launchd_path_spec(bin@, existing@),
        ]);
    }
    match plist_dict_xml(&entries) {
        Ok(x) => Ok(x),
        Err(PlistFailure::Serialize(m)) => Err(EnvSetupError::Plist(crate::text::concat_str("serialize plist: ", m.as_str()))),
        Err(PlistFailure::Utf8(m)) => Err(EnvSetupError::Plist(crate::text::concat_str("plist XML is not valid UTF-8: ", m.as_str()))),
    }
}

} // verus!
