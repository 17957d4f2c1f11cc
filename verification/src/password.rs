use vstd::prelude::*;
use crate::notify::chars_of;
use crate::text::{join2, push_char};

verus! {

/// `s` with every `{}` replaced by `arg`, matches taken left to right without overlap.
pub open spec fn fill_braces(s: Seq<char>, arg: Seq<char>) -> Seq<char>
    decreases s.len(),
{
    if s.len() == 0 {
        Seq::empty()
    } else if s.len() >= 2 && s[0] == '{' && s[1] == '}' {
        arg + fill_braces(s.skip(2), arg)
    } else {
        seq![s[0]] + fill_braces(s.skip(1), arg)
    }
}

/// `s` without its trailing newlines.
pub open spec fn strip_newlines(s: Seq<char>) -> Seq<char>
    decreases s.len(),
{
    if s.len() > 0 && s.last() == '\n' {
        strip_newlines(s.drop_last())
    } else {
        s
    }
}

/// Replaces every `{}` in a (translated) message template with `arg`.
pub fn fill_placeholders(template: &str, arg: &str) -> (r: String)
    ensures
        r@ == fill_braces(template@, arg@),
{
    let c = chars_of(template);
    let a = chars_of(arg);
    let n = c.len();
    let mut out = String::new();
    let mut i: usize = 0;
    assert(c@.skip(0) =~= c@);
    while i < n
        invariant
            c@ == template@,
            a@ == arg@,
            n == c.len(),
            i <= n,
            out@ + fill_braces(c@.skip(i as int), arg@) == fill_braces(template@, arg@),
        decreases n - i,
    {
        let ghost rest = c@.skip(i as int);
        if i + 1 < n && c[i] == '{' && c[i + 1] == '}' {
            let ghost before = out@;
            let m = a.len();
            for j in 0..m
                invariant
                    a@ == arg@,
                    m == a.len(),
                    out@ == before + arg@.take(j as int),
            {
                push_char(&mut out, a[j]);
                assert(out@ =~= before + arg@.take(j + 1));
            }
            assert(arg@.take(m as int) =~= arg@);
            assert(rest.skip(2) =~= c@.skip(i + 2));
            assert(before + fill_braces(rest, arg@) =~= out@ + fill_braces(c@.skip(i + 2), arg@));
            i = i + 2;
        } else {
            let ghost before = out@;
            push_char(&mut out, c[i]);
            assert(rest.skip(1) =~= c@.skip(i + 1));
            assert(before + fill_braces(rest, arg@) =~= out@ + fill_braces(c@.skip(i + 1), arg@));
            i = i + 1;
        }
    }
    assert(c@.skip(n as int) =~= Seq::<char>::empty());
    assert(out@ + Seq::<char>::empty() =~= out@);
    out
}

proof fn lemma_strip_stops(s: Seq<char>)
    requires
        s.len() == 0 || s.last() != '\n',
    ensures
        strip_newlines(s) == s,
{
}

/// What a password helper printed, without the trailing newlines.
pub fn trim_trailing_newlines(s: &str) -> (r: String)
    ensures
        r@ == strip_newlines(s@),
{
    let c = chars_of(s);
    let mut k = c.len();
    assert(c@.take(k as int) =~= s@);
    while k > 0 && c[k - 1] == '\n'
        invariant
            c@ == s@,
            k <= c.len(),
            strip_newlines(c@.take(k as int)) == strip_newlines(s@),
        decreases k,
    {
        assert(c@.take(k as int).drop_last() =~= c@.take(k - 1));
        k = k - 1;
    }
    proof {
        lemma_strip_stops(c@.take(k as int));
    }
    let mut out = String::new();
    for i in 0..k
        invariant
            c@ == s@,
            k <= c.len(),
            out@ == c@.take(i as int),
    {
        push_char(&mut out, c[i]);
        assert(out@ =~= c@.take(i + 1));
    }
    out
}

/// The tools that can ask for a passphrase, in the order they are tried.
#[derive(Debug, Clone, Copy, PartialEq, Eq, Structural)]
pub enum PromptTool {
    /// `systemd-ask-password`, which works with password agents.
    AskPassword,
    /// `zenity`, a common GUI dialog.
    Zenity,
}

/// How running a prompt tool went.
#[derive(Debug, Clone, PartialEq, Eq)]
pub enum PromptRun {
    /// The tool could not be started.
    Unavailable,
    /// The tool ran; `stdout` is what it printed.
    Finished { success: bool, stdout: String },
}

/// What to do after a prompt tool ran.
#[derive(Debug, PartialEq, Eq)]
pub enum PromptStep {
    /// The prompt is over: the passphrase, or `None` where the user cancelled or it timed out.
    Answer(Option<String>),
    /// Try the next tool.
    TryZenity,
    /// No tool could be started: the prompt fails.
    Failed,
}

/// What follows a run of `tool`: a successful run answers with its output, trailing newlines
/// removed; a failed or impossible `systemd-ask-password` falls back to zenity; a zenity that
/// ran without success (cancelled) answers `None`; a zenity that could not be started means
/// that no prompt method is available, and the prompt fails.
pub fn after_prompt(tool: PromptTool, run: PromptRun) -> (r: PromptStep)
    ensures
        match run {
            PromptRun::Finished { success: true, stdout } => r matches PromptStep::Answer(Some(p))
                && p@ == strip_newlines(stdout@),
            PromptRun::Finished { success: false, .. } => match tool {
                PromptTool::AskPassword => r is TryZenity,
                PromptTool::Zenity => r matches PromptStep::Answer(None),
            },
            PromptRun::Unavailable => match tool {
                PromptTool::AskPassword => r is TryZenity,
                PromptTool::Zenity => r is Failed,
            },
        },
{
    match run {
        PromptRun::Finished { success, stdout } => {
            if success {
                PromptStep::Answer(Some(trim_trailing_newlines(stdout.as_str())))
            } else {
                match tool {
                    PromptTool::AskPassword => PromptStep::TryZenity,
                    PromptTool::Zenity => PromptStep::Answer(None),
                }
            }
        },
        PromptRun::Unavailable => match tool {
            PromptTool::AskPassword => PromptStep::TryZenity,
            PromptTool::Zenity => PromptStep::Failed,
        },
    }
}

/// The arguments of `systemd-ask-password`: icon, cache key, cached answers, a one-second
/// timeout, and the message.
pub fn ask_password_args(message: &str) -> (r: Vec<String>)
    ensures
        r@.map_values(|s: String| s@) == seq![
            "--icon=drive-removable-media-usb"@,
            "--keyname=riskie"@,
            "--accept-cached"@,
            "--timeout=1"@,
            message@,
        ],
{
    let mut v: Vec<String> = Vec::new();
    v.push(String::from_str("--icon=drive-removable-media-usb"));
    v.push(String::from_str("--keyname=riskie"));
    v.push(String::from_str("--accept-cached"));
    v.push(String::from_str("--timeout=1"));
    v.push(String::from_str(message));
    assert(v@.map_values(|s: String| s@) =~= seq![
        "--icon=drive-removable-media-usb"@,
        "--keyname=riskie"@,
        "--accept-cached"@,
        "--timeout=1"@,
        message@,
    ]);
    v
}

/// The arguments of `zenity`: a hidden-text entry with the message as text and the device
/// label as title.
pub fn zenity_args(message: &str, device_label: &str) -> (r: Vec<String>)
    ensures
        r@.map_values(|s: String| s@) == seq![
            "--entry"@,
            "--hide-text"@,
            "--icon=drive-removable-media-usb"@,
            "--text="@ + message@,
            "--title="@ + device_label@,
        ],
{
    let mut v: Vec<String> = Vec::new();
    v.push(String::from_str("--entry"));
    v.push(String::from_str("--hide-text"));
    v.push(String::from_str("--icon=drive-removable-media-usb"));
    v.push(join2("--text=", message));
    v.push(join2("--title=", device_label));
    assert(v@.map_values(|s: String| s@) =~= seq![
        "--entry"@,
        "--hide-text"@,
        "--icon=drive-removable-media-usb"@,
        "--text="@ + message@,
        "--title="@ + device_label@,
    ]);
    v
}

/// A template without `{` is left as it is.
pub proof fn lemma_fill_without_braces(s: Seq<char>, arg: Seq<char>)
    requires
        !s.contains('{'),
    ensures
        fill_braces(s, arg) == s,
    decreases s.len(),
{
    if s.len() > 0 {
        assert(s[0] != '{');
        let t = s.skip(1);
        assert forall|c: char| t.contains(c) implies s.contains(c) by {
            let k = choose|k: int| 0 <= k < t.len() && t[k] == c;
            assert(s[k + 1] == c);
        }
        lemma_fill_without_braces(t, arg);
        assert(seq![s[0]] + t =~= s);
    }
}

/// A trimmed answer is a prefix of what the tool printed, it does not end with a newline, and
/// only newlines were cut.
pub proof fn lemma_strip_newlines(s: Seq<char>)
    ensures
        strip_newlines(s).len() <= s.len(),
        strip_newlines(s) == s.take(strip_newlines(s).len() as int),
        strip_newlines(s).len() == 0 || strip_newlines(s).last() != '\n',
        forall|i: int| strip_newlines(s).len() <= i < s.len() ==> #[trigger] s[i] == '\n',
    decreases s.len(),
{
    if s.len() > 0 && s.last() == '\n' {
        let t = s.drop_last();
        lemma_strip_newlines(t);
        assert(strip_newlines(s) == strip_newlines(t));
        assert(t.take(strip_newlines(t).len() as int) =~= s.take(strip_newlines(t).len() as int));
        assert forall|i: int| strip_newlines(s).len() <= i < s.len() implies #[trigger] s[i] == '\n' by {
            if i < t.len() {
                assert(t[i] == '\n');
            }
        }
    } else {
        assert(s.take(s.len() as int) =~= s);
    }
}

} // verus!
