//! Building the outbound request's two message texts from the request
//! context: the user content carries the failed command's combined
//! output, optionally followed by a labeled section with the recent
//! code changes, and the system instructions name the detected OS.

use vstd::prelude::*;

verus! {

/// The user message: the combined command output, and when a non-empty
/// git diff is at hand, a labeled section with it.
pub open spec fn user_content_spec(error_log: Seq<char>, git: Option<Seq<char>>) -> Seq<char> {
    match git {
        Some(g) => if g.len() > 0 {
            error_log + "\n\nRECENT CODE CHANGES:\n"@ + g
        } else {
            error_log
        },
        None => error_log,
    }
}

/// Build the user message text.
pub fn build_user_content(error_log: &str, git_context: Option<&str>) -> (r: String)
    ensures
        r@ == user_content_spec(
            error_log@,
            match git_context {
                Some(g) => Some(g@),
                None => None,
            },
        ),
{
    let mut r = String::new();
    r.append(error_log);
    proof {
        assert(Seq::<char>::empty() + error_log@ =~= error_log@);
    }
    match git_context {
        Some(g) => {
            if g.unicode_len() > 0 {
                r.append("\n\nRECENT CODE CHANGES:\n");
                r.append(g);
                proof {
                    assert((error_log@ + "\n\nRECENT CODE CHANGES:\n"@) + g@ =~= error_log@
                        + "\n\nRECENT CODE CHANGES:\n"@ + g@);
                }
            }
        },
        None => {},
    }
    r
}

/// The system instructions, naming the detected OS twice: once in the
/// role line and once in the tailoring rule.
pub open spec fn system_prompt_spec(os: Seq<char>) -> Seq<char> {
    "Expert System Debugger and Senior Arch Linux Engineer running on "@ + os
        + ".\n\nFollow the exact 'Scannable Expert' format below and be concise, technical, and actionable. Do NOT use bullet lists for headers — use bolded headers and paragraphs.\n\n1) Header: Start with a single line exactly like:\n   ### **Analysis: [Command Name]**\n   (replace [Command Name] with the original command being analyzed)\n\n2) The Glitch: One short section titled:\n   ### **The Glitch**\n   Explain precisely why the flags/syntax or environment caused the error (combine what and why into one clear paragraph).\n\n3) The Fix: One section titled:\n   ### **The Solution**\n   Provide ONE fenced bash code block containing the corrected, ready-to-run command. If the original command included 'sudo', the fixed command MUST also include 'sudo'.\n\n4) Pro-Tip: One short section titled:\n   ### **Pro-Tip**\n   A single high-value shortcut or related command a senior engineer would know.\n\nAlways tailor the install or package suggestions to the detected OS ("@
        + os
        + ") and avoid generic suggestions like 'read the manual' or 'check help'. Keep output terse, actionable, and in the exact order above."@
}

/// Build the system instructions text.
pub fn system_prompt(os_context: &str) -> (r: String)
    ensures
        r@ == system_prompt_spec(os_context@),
{
    let mut r = String::new();
    r.append("Expert System Debugger and Senior Arch Linux Engineer running on ");
    r.append(os_context);
    r.append(
        ".\n\nFollow the exact 'Scannable Expert' format below and be concise, technical, and actionable. Do NOT use bullet lists for headers — use bolded headers and paragraphs.\n\n1) Header: Start with a single line exactly like:\n   ### **Analysis: [Command Name]**\n   (replace [Command Name] with the original command being analyzed)\n\n2) The Glitch: One short section titled:\n   ### **The Glitch**\n   Explain precisely why the flags/syntax or environment caused the error (combine what and why into one clear paragraph).\n\n3) The Fix: One section titled:\n   ### **The Solution**\n   Provide ONE fenced bash code block containing the corrected, ready-to-run command. If the original command included 'sudo', the fixed command MUST also include 'sudo'.\n\n4) Pro-Tip: One short section titled:\n   ### **Pro-Tip**\n   A single high-value shortcut or related command a senior engineer would know.\n\nAlways tailor the install or package suggestions to the detected OS (",
    );
    r.append(os_context);
    r.append(
        ") and avoid generic suggestions like 'read the manual' or 'check help'. Keep output terse, actionable, and in the exact order above.",
    );
    proof {
        assert(r@ =~= system_prompt_spec(os_context@));
    }
    r
}

} // verus!
