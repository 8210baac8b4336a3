//! The event loop's state machine.  A single-threaded loop owns the
//! accumulated response buffer and merges three kinds of happenings:
//! deltas arriving from the background stream, the stream closing, and
//! keyboard input.  The decisions live here as verified transitions; the
//! loop around them — channel polling, drawing, clipboard, spawning —
//! performs the returned actions.

use vstd::prelude::*;

use crate::text::{
    chars_of, find_sub, lower_chars, lower_seq, string_of, trim_by, trim_chars, trim_ws,
};

verus! {

/// Where the loop stands: no request issued yet, a stream feeding the
/// buffer, or the stream ended.
#[derive(Debug, Clone, Copy, PartialEq, Eq, Structural)]
pub enum LoopState {
    Idle,
    Streaming,
    Done,
}

/// The keys the loop reacts to; everything else arrives as `Other`.
#[derive(Debug, Clone, Copy, PartialEq, Eq, Structural)]
pub enum KeyPress {
    Quit,
    CopyFix,
    Rerun,
    Other,
}

/// What the loop around the state machine must do for a key.
#[derive(Debug, Clone, Copy, PartialEq, Eq, Structural)]
pub enum KeyAction {
    /// End the loop and shut down in order.
    Quit,
    /// Copy the extracted fix to the clipboard.
    Copy,
    /// Spawn a fresh response stream.
    Respawn,
    /// Nothing to do.
    Ignore,
}

/// The render facade handed to the terminal drawing code.
pub struct App {
    pub error_log: String,
    pub duck_response: String,
    pub is_streaming: bool,
    pub has_git_context: bool,
}

/// What a key demands, given whether a credential is configured: quit
/// always works, copying always works, and re-running needs the
/// credential; other keys are ignored.
pub open spec fn key_action_spec(has_credential: bool, key: KeyPress) -> KeyAction {
    match key {
        KeyPress::Quit => KeyAction::Quit,
        KeyPress::CopyFix => KeyAction::Copy,
        KeyPress::Rerun => if has_credential {
            KeyAction::Respawn
        } else {
            KeyAction::Ignore
        },
        KeyPress::Other => KeyAction::Ignore,
    }
}

/// The loop's whole state: the machine's position, the response buffer,
/// and the immutable request surroundings.
pub struct Orchestrator {
    pub state: LoopState,
    pub response: String,
    pub error_log: String,
    pub has_git_context: bool,
    pub has_credential: bool,
}

impl Orchestrator {
    /// A fresh loop: idle, with an empty response buffer.
    pub fn new(error_log: String, has_git_context: bool, has_credential: bool) -> (r:
        Orchestrator)
        ensures
            r.state == LoopState::Idle,
            r.response@ == Seq::<char>::empty(),
            r.error_log == error_log,
            r.has_git_context == has_git_context,
            r.has_credential == has_credential,
    {
        Orchestrator {
            state: LoopState::Idle,
            response: String::new(),
            error_log,
            has_git_context,
            has_credential,
        }
    }

    /// A request went out: the machine streams into a response buffer
    /// that starts empty; a re-issued request replaces the old buffer.
    pub fn on_request_issued(&mut self)
        ensures
            final(self).state == LoopState::Streaming,
            final(self).response@ == Seq::<char>::empty(),
            final(self).error_log == old(self).error_log,
            final(self).has_git_context == old(self).has_git_context,
            final(self).has_credential == old(self).has_credential,
    {
        self.state = LoopState::Streaming;
        self.response = String::new();
    }

    /// A delta arrived: a non-empty fragment is appended to the buffer
    /// and keeps (or puts) the machine streaming; the empty fragments
    /// used as completion sentinels change nothing.  Deltas may legally
    /// arrive in any state and are tolerated.
    pub fn on_delta(&mut self, chunk: &str)
        ensures
            chunk@.len() > 0 ==> final(self).state == LoopState::Streaming && final(self).response@
                == old(self).response@ + chunk@,
            chunk@.len() == 0 ==> final(self).state == old(self).state && final(self).response@
                == old(self).response@,
            final(self).error_log == old(self).error_log,
            final(self).has_git_context == old(self).has_git_context,
            final(self).has_credential == old(self).has_credential,
    {
        if chunk.unicode_len() > 0 {
            self.response.append(chunk);
            self.state = LoopState::Streaming;
        }
    }

    /// The stream ended — the channel closed or the producer reported an
    /// error: the machine is done; the buffer stays for display.
    pub fn on_stream_closed(&mut self)
        ensures
            final(self).state == LoopState::Done,
            final(self).response@ == old(self).response@,
            final(self).error_log == old(self).error_log,
            final(self).has_git_context == old(self).has_git_context,
            final(self).has_credential == old(self).has_credential,
    {
        self.state = LoopState::Done;
    }

    /// What the loop must do for a key, in any state: quit always ends
    /// the loop; copy and re-run are side effects that leave the
    /// machine's position alone.
    pub fn on_key(&self, key: KeyPress) -> (a: KeyAction)
        ensures
            a == key_action_spec(self.has_credential, key),
    {
        match key {
            KeyPress::Quit => KeyAction::Quit,
            KeyPress::CopyFix => KeyAction::Copy,
            KeyPress::Rerun => if self.has_credential {
                KeyAction::Respawn
            } else {
                KeyAction::Ignore
            },
            KeyPress::Other => KeyAction::Ignore,
        }
    }

    /// Record how the clipboard copy went in the error panel.
    pub fn note_copy_result(&mut self, copy_err: Option<&str>)
        ensures
            final(self).error_log@ == match copy_err {
                None => old(self).error_log@ + "\n\n[Copied fix to clipboard]"@,
                Some(e) => old(self).error_log@ + "\n\n[Copy failed: "@ + e@ + "]"@,
            },
            final(self).state == old(self).state,
            final(self).response@ == old(self).response@,
            final(self).has_git_context == old(self).has_git_context,
            final(self).has_credential == old(self).has_credential,
    {
        match copy_err {
            None => {
                self.error_log.append("\n\n[Copied fix to clipboard]");
            },
            Some(e) => {
                self.error_log.append("\n\n[Copy failed: ");
                self.error_log.append(e);
                self.error_log.append("]");
            },
        }
    }

    /// The render facade for one frame: the panels' text and whether a
    /// stream is feeding the response panel.
    pub fn app_view(&self) -> (a: App)
        ensures
            a.error_log@ == self.error_log@,
            a.duck_response@ == self.response@,
            a.is_streaming == (self.state == LoopState::Streaming),
            a.has_git_context == self.has_git_context,
    {
        App {
            error_log: self.error_log.clone(),
            duck_response: self.response.clone(),
            is_streaming: match self.state {
                LoopState::Streaming => true,
                _ => false,
            },
            has_git_context: self.has_git_context,
        }
    }
}

/// The first fenced code block of `s`: what stands between the first
/// fence marker and the next, without surrounding newlines.
pub open spec fn fenced_block(s: Seq<char>) -> Option<Seq<char>> {
    match find_sub(s, "```"@) {
        Some(st) => {
            let after = s.skip(st + "```"@.len() as int);
            match find_sub(after, "```"@) {
                Some(en) => Some(trim_by(after.take(en), |c: char| c == '\n')),
                None => None,
            }
        },
        None => None,
    }
}

/// The most relevant fix in a response: the fenced block inside the
/// solution section when there is one, else that whole section trimmed,
/// else the first fenced block anywhere, else the whole response
/// trimmed.
pub open spec fn extract_fix_spec(r: Seq<char>) -> Seq<char> {
    match find_sub(lower_seq(r), "the solution"@) {
        Some(i) => {
            let rest = r.skip(i);
            match fenced_block(rest) {
                Some(code) => code,
                None => trim_ws(rest),
            }
        },
        None => match fenced_block(r) {
            Some(code) => code,
            None => trim_ws(r),
        },
    }
}

/// The subslice of `s` with newlines removed at both ends.
fn trim_newlines<'a>(s: &'a [char]) -> (r: &'a [char])
    ensures
        r@ == trim_by(s@, |c: char| c == '\n'),
{
    let mut lo: usize = 0;
    while lo < s.len() && s[lo] == '\n'
        invariant
            0 <= lo <= s@.len(),
            forall|k: int| 0 <= k < lo ==> s@[k] == '\n',
        decreases s@.len() - lo,
    {
        lo = lo + 1;
    }
    let mut hi: usize = s.len();
    while hi > lo && s[hi - 1] == '\n'
        invariant
            lo <= hi <= s@.len(),
            forall|k: int| 0 <= k < lo ==> s@[k] == '\n',
            forall|k: int| hi <= k < s@.len() ==> s@[k] == '\n',
        decreases hi,
    {
        hi = hi - 1;
    }
    proof {
        let p = |c: char| c == '\n';
        assert forall|k: int| 0 <= k < lo implies p(s@[k]) by {
            assert(s@[k] == '\n');
        }
        assert forall|k: int| hi <= k < s@.len() implies p(s@[k]) by {
            assert(s@[k] == '\n');
        }
        if lo < s@.len() {
            assert(!p(s@[lo as int]));
        }
        crate::text::lemma_trim_start_by(s@, p, lo as int);
        let t = s@.skip(lo as int);
        assert(forall|k: int| 0 <= k < t.len() ==> t[k] == s@[k + lo]);
        if hi == lo {
            crate::text::lemma_trim_end_by(t, p, 0);
        } else {
            assert(!p(s@[hi - 1]));
            crate::text::lemma_trim_end_by(t, p, hi - lo);
        }
        assert(t.take(hi - lo) =~= s@.subrange(lo as int, hi as int));
    }
    vstd::slice::slice_subrange(s, lo, hi)
}

/// The first fenced code block of `s`, if both fences are present.
fn fenced_block_exec(s: &[char]) -> (r: Option<String>)
    ensures
        match r {
            Some(code) => fenced_block(s@) == Some(code@),
            None => fenced_block(s@) is None,
        },
{
    let fence = chars_of("```");
    proof {
        crate::text::lemma_find_sub(s@, fence@);
    }
    match crate::text::find_sub_chars(s, fence.as_slice()) {
        Some(st) => {
            let n = s.len();
            proof {
                assert(crate::text::occurs_at(s@, fence@, st as int));
                assert(st + fence@.len() <= n);
            }
            let after = vstd::slice::slice_subrange(s, st + fence.len(), n);
            proof {
                assert(after@ =~= s@.skip(st + "```"@.len() as int));
            }
            match crate::text::find_sub_chars(after, fence.as_slice()) {
                Some(en) => {
                    proof {
                        crate::text::lemma_find_sub(after@, fence@);
                    }
                    let code = vstd::slice::slice_subrange(after, 0, en);
                    proof {
                        assert(code@ =~= after@.take(en as int));
                    }
                    let trimmed = trim_newlines(code);
                    Some(string_of(trimmed))
                },
                None => None,
            }
        },
        None => None,
    }
}

/// The most relevant fix to copy out of a response.
pub fn extract_fix(response: &str) -> (r: String)
    ensures
        r@ == extract_fix_spec(response@),
{
    let chars = chars_of(response);
    let low = lower_chars(chars.as_slice());
    let phrase = chars_of("the solution");
    proof {
        crate::text::lemma_find_sub(low@, phrase@);
    }
    match crate::text::find_sub_chars(low.as_slice(), phrase.as_slice()) {
        Some(i) => {
            let rest = vstd::slice::slice_subrange(chars.as_slice(), i, chars.len());
            proof {
                assert(rest@ =~= response@.skip(i as int));
            }
            match fenced_block_exec(rest) {
                Some(code) => code,
                None => string_of(trim_chars(rest)),
            }
        },
        None => {
            match fenced_block_exec(chars.as_slice()) {
                Some(code) => code,
                None => string_of(trim_chars(chars.as_slice())),
            }
        },
    }
}

} // verus!
