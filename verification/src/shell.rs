//! Shell-side values and history parsing: the captured output of the
//! replayed command, the rules that read one history line per shell
//! flavour, the backwards scan for the last runnable command, and the
//! small string rules around shell detection, OS description and shell
//! integration scripts.  Running commands and reading files happen
//! outside this crate; these functions work on the text they hand over.

use vstd::prelude::*;

use crate::text::{
    append_chars, chars_eq, chars_of, find_char, find_elem, has_prefix, is_space_char,
    is_space_char_exec, lemma_run_len_is, lemma_trim_start_by, lines_of, lower_chars, lower_seq,
    run_len, split_lines_chars, starts_with_chars, string_of, trim_by, trim_chars, trim_start_by,
    trim_ws,
};

verus! {

/// What the replayed command produced: both output streams and its exit
/// code.
pub struct CommandOutput {
    pub stdout: String,
    pub stderr: String,
    pub exit_code: i32,
}

/// The two output streams combined for display and analysis: each
/// trimmed, joined by one newline.
pub open spec fn combined_spec(out: Seq<char>, err: Seq<char>) -> Seq<char> {
    trim_ws(out) + seq!['\n'] + trim_ws(err)
}

impl CommandOutput {
    /// Both streams, trimmed and joined by a newline.
    pub fn combined(&self) -> (r: String)
        ensures
            r@ == combined_spec(self.stdout@, self.stderr@),
    {
        let out_chars = chars_of(self.stdout.as_str());
        let err_chars = chars_of(self.stderr.as_str());
        let mut v: Vec<char> = Vec::new();
        append_chars(&mut v, trim_chars(out_chars.as_slice()));
        v.push('\n');
        append_chars(&mut v, trim_chars(err_chars.as_slice()));
        proof {
            assert(v@ =~= combined_spec(self.stdout@, self.stderr@));
        }
        string_of(v.as_slice())
    }

    /// Whether there is anything to show: a failing exit code or any
    /// combined output at all.
    pub fn should_launch(&self) -> (r: bool)
        ensures
            r == (self.exit_code != 0 || trim_ws(combined_spec(self.stdout@, self.stderr@)).len()
                > 0),
    {
        if self.exit_code != 0 {
            return true;
        }
        let combined = self.combined();
        let c = chars_of(combined.as_str());
        let t = trim_chars(c.as_slice());
        t.len() > 0
    }
}

/// What one history line means for a given shell: the runnable command
/// it records, or nothing for blank, timestamp or metadata lines.
pub open spec fn parse_history_line_spec(line: Seq<char>, shell: Seq<char>) -> Option<Seq<char>> {
    let t = trim_ws(line);
    if t.len() == 0 {
        None
    } else if shell == "zsh"@ {
        match find_elem(t, ';') {
            Some(i) => {
                let cmd = trim_ws(t.skip(i + 1));
                if cmd.len() > 0 {
                    Some(cmd)
                } else {
                    None
                }
            },
            None => if t[0] != ':' {
                Some(t)
            } else {
                None
            },
        }
    } else if shell == "fish"@ {
        if has_prefix(t, "- cmd: "@) {
            let cmd = trim_ws(t.skip("- cmd: "@.len() as int));
            if cmd.len() > 0 {
                Some(cmd)
            } else {
                None
            }
        } else if has_prefix(t, "cmd: "@) {
            let cmd = trim_ws(t.skip("cmd: "@.len() as int));
            if cmd.len() > 0 {
                Some(cmd)
            } else {
                None
            }
        } else {
            None
        }
    } else {
        if t[0] == '#' {
            None
        } else {
            Some(t)
        }
    }
}

/// Parse one history line for the given shell flavour (`"zsh"`,
/// `"fish"`, or anything else for bash-style history): the runnable
/// command it records, or nothing when the line is a timestamp, a
/// metadata entry, or blank.
pub fn parse_history_line(line: &str, shell_type: &str) -> (r: Option<String>)
    ensures
        match r {
            Some(cmd) => parse_history_line_spec(line@, shell_type@) == Some(cmd@),
            None => parse_history_line_spec(line@, shell_type@) is None,
        },
{
    let lc = chars_of(line);
    let t = trim_chars(lc.as_slice());
    if t.len() == 0 {
        return None;
    }
    let shell = chars_of(shell_type);
    let zsh = chars_of("zsh");
    let fish = chars_of("fish");
    if chars_eq(shell.as_slice(), zsh.as_slice()) {
        proof {
            crate::text::lemma_find_elem(t@, ';');
        }
        match find_char(t, ';') {
            Some(i) => {
                let after = vstd::slice::slice_subrange(t, i + 1, t.len());
                proof {
                    assert(after@ =~= trim_ws(line@).skip(i + 1));
                }
                let cmd = trim_chars(after);
                if cmd.len() > 0 {
                    Some(string_of(cmd))
                } else {
                    None
                }
            },
            None => {
                if t[0] != ':' {
                    Some(string_of(t))
                } else {
                    None
                }
            },
        }
    } else if chars_eq(shell.as_slice(), fish.as_slice()) {
        let dash_prefix = chars_of("- cmd: ");
        let bare_prefix = chars_of("cmd: ");
        if starts_with_chars(t, dash_prefix.as_slice()) {
            let after = vstd::slice::slice_subrange(t, dash_prefix.len(), t.len());
            proof {
                assert(after@ =~= trim_ws(line@).skip("- cmd: "@.len() as int));
            }
            let cmd = trim_chars(after);
            if cmd.len() > 0 {
                Some(string_of(cmd))
            } else {
                None
            }
        } else if starts_with_chars(t, bare_prefix.as_slice()) {
            let after = vstd::slice::slice_subrange(t, bare_prefix.len(), t.len());
            proof {
                assert(after@ =~= trim_ws(line@).skip("cmd: "@.len() as int));
            }
            let cmd = trim_chars(after);
            if cmd.len() > 0 {
                Some(string_of(cmd))
            } else {
                None
            }
        } else {
            None
        }
    } else {
        if t[0] == '#' {
            None
        } else {
            Some(string_of(t))
        }
    }
}

/// The first whitespace-separated word of `s`.
pub open spec fn first_word(s: Seq<char>) -> Seq<char> {
    let t = trim_start_by(s, |c: char| is_space_char(c));
    t.take(run_len(t, false))
}

/// Whether a command's first word, lower-cased, is one of the entries
/// the history scan skips so the helper never replays itself.
pub open spec fn forbidden_first(cmd: Seq<char>) -> bool {
    let first = lower_seq(first_word(cmd));
    first == "quack"@ || first == "duck"@ || first == "history"@ || first == "fc"@
}

/// The first whitespace-separated word of `s`.
fn first_word_chars<'a>(s: &'a [char]) -> (r: &'a [char])
    ensures
        r@ == first_word(s@),
{
    let mut lo: usize = 0;
    while lo < s.len() && is_space_char_exec(s[lo])
        invariant
            0 <= lo <= s@.len(),
            forall|k: int| 0 <= k < lo ==> is_space_char(s@[k]),
        decreases s@.len() - lo,
    {
        lo = lo + 1;
    }
    let mut j: usize = lo;
    while j < s.len() && !is_space_char_exec(s[j])
        invariant
            lo <= j <= s@.len(),
            forall|k: int| lo <= k < j ==> !is_space_char(s@[k]),
        decreases s@.len() - j,
    {
        j = j + 1;
    }
    proof {
        let p = |c: char| is_space_char(c);
        assert forall|k: int| 0 <= k < lo implies p(s@[k]) by {
            assert(is_space_char(s@[k]));
        }
        if lo < s@.len() {
            assert(!p(s@[lo as int]));
        }
        lemma_trim_start_by(s@, p, lo as int);
        let t = s@.skip(lo as int);
        assert(forall|k: int| 0 <= k < t.len() ==> t[k] == s@[k + lo]);
        lemma_run_len_is(t, false, j - lo);
        assert(t.take(j - lo) =~= s@.subrange(lo as int, j as int));
    }
    vstd::slice::slice_subrange(s, lo, j)
}

/// Whether the scan must skip this command.
fn is_forbidden(cmd: &[char]) -> (r: bool)
    ensures
        r == forbidden_first(cmd@),
{
    let fw = first_word_chars(cmd);
    let low = lower_chars(fw);
    let w1 = chars_of("quack");
    let w2 = chars_of("duck");
    let w3 = chars_of("history");
    let w4 = chars_of("fc");
    chars_eq(low.as_slice(), w1.as_slice()) || chars_eq(low.as_slice(), w2.as_slice())
        || chars_eq(low.as_slice(), w3.as_slice()) || chars_eq(low.as_slice(), w4.as_slice())
}

/// The last runnable, non-skipped command among `lines`, scanned from
/// the end.
pub open spec fn last_command_spec(lines: Seq<Seq<char>>, shell: Seq<char>) -> Option<Seq<char>>
    decreases lines.len(),
{
    if lines.len() == 0 {
        None
    } else {
        match parse_history_line_spec(lines.last(), shell) {
            Some(cmd) => if !forbidden_first(cmd) {
                Some(cmd)
            } else {
                last_command_spec(lines.drop_last(), shell)
            },
            None => last_command_spec(lines.drop_last(), shell),
        }
    }
}

/// Scan the history file contents backwards for the most recent
/// runnable command, skipping entries that would replay the helper
/// itself.
pub fn last_command_from_history(contents: &str, shell_name: &str) -> (r: Option<String>)
    ensures
        match r {
            Some(cmd) => last_command_spec(lines_of(contents@), shell_name@) == Some(cmd@),
            None => last_command_spec(lines_of(contents@), shell_name@) is None,
        },
{
    let mut chars = chars_of(contents);
    if chars.len() == 0 {
        return None;
    }
    if chars[chars.len() - 1] == '\n' {
        let _ = chars.pop();
        proof {
            assert(chars@ =~= contents@.drop_last());
        }
    }
    let ghost line_src = chars@;
    let lines = split_lines_chars(chars.as_slice());
    let ghost lines_v = lines@.map_values(|l: Vec<char>| l@);
    proof {
        assert(lines_of(contents@) == crate::text::split_elem(line_src, '\n'));
    }
    let mut k = lines.len();
    proof {
        assert(lines_v.take(lines_v.len() as int) =~= lines_v);
    }
    while k > 0
        invariant
            lines_v == lines@.map_values(|l: Vec<char>| l@),
            lines_of(contents@) == lines_v,
            0 <= k <= lines@.len(),
            last_command_spec(lines_v, shell_name@) == last_command_spec(
                lines_v.take(k as int),
                shell_name@,
            ),
        decreases k,
    {
        k = k - 1;
        let line_s = string_of(lines[k].as_slice());
        proof {
            assert(line_s@ == lines_v[k as int]);
            assert(lines_v.take(k + 1).drop_last() =~= lines_v.take(k as int));
            assert(lines_v.take(k + 1).last() == lines_v[k as int]);
        }
        match parse_history_line(line_s.as_str(), shell_name) {
            Some(cmd) => {
                let cmd_chars = chars_of(cmd.as_str());
                if !is_forbidden(cmd_chars.as_slice()) {
                    proof {
                        assert(parse_history_line_spec(lines_v[k as int], shell_name@) == Some(
                            cmd@,
                        ));
                        assert(last_command_spec(lines_v.take(k + 1), shell_name@) == Some(cmd@));
                    }
                    return Some(cmd);
                }
            },
            None => {},
        }
    }
    proof {
        assert(lines_v.take(0) =~= Seq::<Seq<char>>::empty());
    }
    None
}

/// The suffix of `path` after its last slash.
pub open spec fn after_last_slash(s: Seq<char>) -> Seq<char>
    decreases s.len(),
{
    if s.len() == 0 {
        s
    } else if s.last() == '/' {
        Seq::empty()
    } else {
        after_last_slash(s.drop_last()).push(s.last())
    }
}

proof fn lemma_after_last_slash(s: Seq<char>, k: int)
    requires
        0 <= k <= s.len(),
        forall|j: int| k <= j < s.len() ==> s[j] != '/',
        k == 0 || s[k - 1] == '/',
    ensures
        after_last_slash(s) == s.skip(k),
    decreases s.len(),
{
    if s.len() == 0 {
        assert(s.skip(0) =~= s);
    } else if k == s.len() {
        assert(s.last() == '/');
        assert(s.skip(k) =~= Seq::<char>::empty());
    } else {
        assert(s.last() != '/');
        let t = s.drop_last();
        lemma_after_last_slash(t, k);
        assert(t.skip(k).push(s.last()) =~= s.skip(k));
    }
}

/// The shell's name as read from its path: the text after the last
/// slash, ASCII lower-cased.
pub open spec fn shell_name_spec(path: Seq<char>) -> Seq<char> {
    lower_seq(after_last_slash(path))
}

/// The shell name of a shell path: its file name, lower-cased.
pub fn shell_name_of(path: &str) -> (r: String)
    ensures
        r@ == shell_name_spec(path@),
{
    let s = chars_of(path);
    let mut k = s.len();
    while k > 0 && s[k - 1] != '/'
        invariant
            0 <= k <= s@.len(),
            forall|j: int| k <= j < s@.len() ==> s@[j] != '/',
        decreases k,
    {
        k = k - 1;
    }
    proof {
        lemma_after_last_slash(s@, k as int);
    }
    let name = vstd::slice::slice_subrange(s.as_slice(), k, s.len());
    proof {
        assert(name@ =~= s@.skip(k as int));
    }
    let low = lower_chars(name);
    string_of(low.as_slice())
}

/// The history file for a shell, relative to the home directory.
pub open spec fn history_file_suffix_spec(shell: Seq<char>) -> Seq<char> {
    if shell == "zsh"@ {
        ".zsh_history"@
    } else if shell == "fish"@ {
        ".local/share/fish/fish_history"@
    } else {
        ".bash_history"@
    }
}

/// The history file for a shell, relative to the home directory; bash
/// history stands in for unknown shells.
pub fn history_file_suffix(shell_name: &str) -> (r: &'static str)
    ensures
        r@ == history_file_suffix_spec(shell_name@),
{
    let shell = chars_of(shell_name);
    let zsh = chars_of("zsh");
    let fish = chars_of("fish");
    if chars_eq(shell.as_slice(), zsh.as_slice()) {
        ".zsh_history"
    } else if chars_eq(shell.as_slice(), fish.as_slice()) {
        ".local/share/fish/fish_history"
    } else {
        ".bash_history"
    }
}

/// The OS pretty name read from an os-release file: the value of its
/// first `PRETTY_NAME=` line, trimmed and unquoted.
pub open spec fn pretty_name_lines(lines: Seq<Seq<char>>) -> Option<Seq<char>>
    decreases lines.len(),
{
    if lines.len() == 0 {
        None
    } else if has_prefix(lines.first(), "PRETTY_NAME="@) {
        Some(trim_by(trim_ws(lines.first().skip("PRETTY_NAME="@.len() as int)), |c: char| c == '"'))
    } else {
        pretty_name_lines(lines.skip(1))
    }
}

pub open spec fn pretty_name_spec(contents: Seq<char>) -> Option<Seq<char>> {
    pretty_name_lines(lines_of(contents))
}

/// The subslice of `s` with double quotes removed at both ends.
fn trim_quotes<'a>(s: &'a [char]) -> (r: &'a [char])
    ensures
        r@ == trim_by(s@, |c: char| c == '"'),
{
    let mut lo: usize = 0;
    while lo < s.len() && s[lo] == '"'
        invariant
            0 <= lo <= s@.len(),
            forall|k: int| 0 <= k < lo ==> s@[k] == '"',
        decreases s@.len() - lo,
    {
        lo = lo + 1;
    }
    let mut hi: usize = s.len();
    while hi > lo && s[hi - 1] == '"'
        invariant
            lo <= hi <= s@.len(),
            forall|k: int| 0 <= k < lo ==> s@[k] == '"',
            forall|k: int| hi <= k < s@.len() ==> s@[k] == '"',
        decreases hi,
    {
        hi = hi - 1;
    }
    proof {
        let p = |c: char| c == '"';
        assert forall|k: int| 0 <= k < lo implies p(s@[k]) by {
            assert(s@[k] == '"');
        }
        assert forall|k: int| hi <= k < s@.len() implies p(s@[k]) by {
            assert(s@[k] == '"');
        }
        if lo < s@.len() {
            assert(!p(s@[lo as int]));
        }
        lemma_trim_start_by(s@, p, lo as int);
        let t = s@.skip(lo as int);
        assert(forall|k: int| 0 <= k < t.len() ==> t[k] == s@[k + lo]);
        if hi == lo {
            crate::text::lemma_trim_end_by(t, p, 0);
        } else {
            assert(!p(s@[hi - 1]));
            crate::text::lemma_trim_end_by(t, p, hi - lo);
        }
        assert(t.take(hi - lo) =~= s@.subrange(lo as int, hi as int));
    }
    vstd::slice::slice_subrange(s, lo, hi)
}

/// Read the OS pretty name out of os-release file contents.
pub fn pretty_name_of(os_release: &str) -> (r: Option<String>)
    ensures
        match r {
            Some(name) => pretty_name_spec(os_release@) == Some(name@),
            None => pretty_name_spec(os_release@) is None,
        },
{
    let mut chars = chars_of(os_release);
    if chars.len() == 0 {
        return None;
    }
    if chars[chars.len() - 1] == '\n' {
        let _ = chars.pop();
        proof {
            assert(chars@ =~= os_release@.drop_last());
        }
    }
    let ghost line_src = chars@;
    let lines = split_lines_chars(chars.as_slice());
    let ghost lines_v = lines@.map_values(|l: Vec<char>| l@);
    proof {
        assert(lines_of(os_release@) == crate::text::split_elem(line_src, '\n'));
        assert(lines_v.skip(0) =~= lines_v);
    }
    let prefix = chars_of("PRETTY_NAME=");
    let mut i: usize = 0;
    while i < lines.len()
        invariant
            lines_v == lines@.map_values(|l: Vec<char>| l@),
            lines_of(os_release@) == lines_v,
            prefix@ == "PRETTY_NAME="@,
            0 <= i <= lines@.len(),
            pretty_name_lines(lines_v) == pretty_name_lines(lines_v.skip(i as int)),
        decreases lines@.len() - i,
    {
        let line = lines[i].as_slice();
        proof {
            assert(lines_v.skip(i as int).first() == lines_v[i as int]);
            assert(lines_v.skip(i as int).skip(1) =~= lines_v.skip(i + 1));
        }
        if starts_with_chars(line, prefix.as_slice()) {
            proof {
                assert(line@ == lines_v[i as int]);
                assert(has_prefix(lines_v.skip(i as int).first(), "PRETTY_NAME="@));
            }
            let rest = vstd::slice::slice_subrange(line, prefix.len(), line.len());
            proof {
                assert(rest@ =~= lines_v[i as int].skip("PRETTY_NAME="@.len() as int));
            }
            let trimmed = trim_chars(rest);
            let unquoted = trim_quotes(trimmed);
            let name = string_of(unquoted);
            proof {
                assert(pretty_name_lines(lines_v.skip(i as int)) == Some(name@));
            }
            return Some(name);
        }
        i = i + 1;
    }
    proof {
        assert(lines_v.skip(lines_v.len() as int) =~= Seq::<Seq<char>>::empty());
    }
    None
}

/// The display form of an OS description.
pub fn os_context_line(name: &str) -> (r: String)
    ensures
        r@ == "OS: "@ + name@,
{
    let mut r = String::new();
    r.append("OS: ");
    r.append(name);
    proof {
        assert((Seq::<char>::empty() + "OS: "@) + name@ =~= "OS: "@ + name@);
    }
    r
}

/// The rc file, relative to the home directory, and the wrapper script
/// that shell integration appends for a given shell; unknown shells are
/// unsupported.
pub open spec fn rc_script_spec(shell: Seq<char>) -> Option<(Seq<char>, Seq<char>)> {
    if shell == "fish"@ {
        Some(
            (
                ".config/fish/config.fish"@,
                "function quack\n    set -l last_status $status\n    history save\n    command quack --status $last_status $argv\nend\n"@,
            ),
        )
    } else if shell == "zsh"@ {
        Some(
            (
                ".zshrc"@,
                "quack() {\n    local last_status=$?\n    fc -W\n    command quack --status $last_status \"$@\"\n}\n"@,
            ),
        )
    } else if shell == "bash"@ {
        Some(
            (
                ".bashrc"@,
                "quack() {\n    local last_status=$?\n    history -a\n    command quack --status $last_status \"$@\"\n}\n"@,
            ),
        )
    } else {
        None
    }
}

/// The rc file suffix and integration script for a shell, if supported.
pub fn rc_script_for(shell_name: &str) -> (r: Option<(String, String)>)
    ensures
        match r {
            Some(pair) => rc_script_spec(shell_name@) == Some((pair.0@, pair.1@)),
            None => rc_script_spec(shell_name@) is None,
        },
{
    let shell = chars_of(shell_name);
    let fish = chars_of("fish");
    let zsh = chars_of("zsh");
    let bash = chars_of("bash");
    if chars_eq(shell.as_slice(), fish.as_slice()) {
        let mut path = String::new();
        path.append(".config/fish/config.fish");
        let mut script = String::new();
        script.append(
            "function quack\n    set -l last_status $status\n    history save\n    command quack --status $last_status $argv\nend\n",
        );
        Some((path, script))
    } else if chars_eq(shell.as_slice(), zsh.as_slice()) {
        let mut path = String::new();
        path.append(".zshrc");
        let mut script = String::new();
        script.append(
            "quack() {\n    local last_status=$?\n    fc -W\n    command quack --status $last_status \"$@\"\n}\n",
        );
        Some((path, script))
    } else if chars_eq(shell.as_slice(), bash.as_slice()) {
        let mut path = String::new();
        path.append(".bashrc");
        let mut script = String::new();
        script.append(
            "quack() {\n    local last_status=$?\n    history -a\n    command quack --status $last_status \"$@\"\n}\n",
        );
        Some((path, script))
    } else {
        None
    }
}

} // verus!
