//! The chooser window's decisions: what each button press does to the link on show.

use vstd::prelude::*;
use crate::text::{
    contains_text, first_chars, occurs_in, same_text, to_lowercase, truncate_chars,
    unicode_lowercase,
};

verus! {

/// The most characters of a link that the window's headline shows.
pub const HEADLINE_CHARS: usize = 40;

/// The links the window works with: the one to open in all browsers, copy or expand, and the
/// one a single browser opens.
pub struct ChooserState {
    pub url: String,
    pub expanded_url: String,
}

/// What the window has to do after a button press.
pub enum Reaction {
    /// Show this text in the headline.
    ShowUrl(String),
    /// Ask the expansion service about this link.
    Expand(String),
    /// Open this link in every stored browser.
    OpenAll(String),
    /// Put this link on the clipboard.
    CopyToClipboard(String),
    /// Nothing.
    Nothing,
    /// Open the link with the browser command, then close the window.
    OpenAndQuit { command: String, url: String },
}

/// The window's state when it opens, the headline it shows then (`None`: the headline keeps
/// its placeholder), and the link it asks the expansion service about at once (a link given
/// on the command line is expanded automatically). A link given on the command line is the
/// link of both kinds; without one, both are a single space until a found link is picked,
/// and nothing is expanded.
pub fn start_chooser(first_arg: Option<&str>) -> (res: (ChooserState, Option<String>, Option<String>))
    ensures
        first_arg matches Some(a) ==> {
            &&& res.0.url@ == a@
            &&& res.0.expanded_url@ == a@
            &&& res.1 matches Some(h) && h@ == first_chars(a@, HEADLINE_CHARS as nat)
            &&& res.2 matches Some(e) && e@ == a@
        },
        first_arg is None ==> {
            &&& res.0.url@ == " "@
            &&& res.0.expanded_url@ == " "@
            &&& res.1 is None
            &&& res.2 is None
        },
{
    match first_arg {
        Some(a) => (
            ChooserState { url: String::from_str(a), expanded_url: String::from_str(a) },
            Some(truncate_chars(a, HEADLINE_CHARS)),
            Some(String::from_str(a)),
        ),
        None => (
            ChooserState { url: String::from_str(" "), expanded_url: String::from_str(" ") },
            None,
            None,
        ),
    }
}

/// A message naming one of the window's own buttons (not a browser command).
pub open spec fn is_button_word(m: Seq<char>) -> bool {
    m == "expandurl"@ || m == "all"@ || m == "svc"@ || m == "svw"@
}

/// What a button press, which sends `msg`, does. A message holding `//` is a link that was
/// picked: it becomes the link of both kinds and is shown. The window's own buttons send
/// `expandurl`, `all`, `svc` (copy) and `svw` (share, which does nothing); any other message
/// is the command of the browser that was picked.
pub fn handle_message(state: &mut ChooserState, msg: &str) -> (r: Reaction)
    ensures
        occurs_in("//"@, msg@) ==> {
            &&& final(state).url@ == msg@
            &&& final(state).expanded_url@ == msg@
            &&& r matches Reaction::ShowUrl(h) && h@ == first_chars(msg@, HEADLINE_CHARS as nat)
        },
        !occurs_in("//"@, msg@) ==> {
            &&& final(state).url@ == old(state).url@
            &&& final(state).expanded_url@ == old(state).expanded_url@
            &&& msg@ == "expandurl"@ ==> (r matches Reaction::Expand(u) && u@ == old(state).url@)
            &&& msg@ == "all"@ ==> (r matches Reaction::OpenAll(u) && u@ == old(state).url@)
            &&& msg@ == "svc"@ ==> (r matches Reaction::CopyToClipboard(u) && u@ == old(
                state,
            ).url@)
            &&& msg@ == "svw"@ ==> r is Nothing
            &&& !is_button_word(msg@) ==> (r matches Reaction::OpenAndQuit { command, url }
                && command@ == msg@ && url@ == old(state).expanded_url@)
        },
{
    proof {
        reveal_strlit("expandurl");
        reveal_strlit("all");
        reveal_strlit("svc");
        reveal_strlit("svw");
        assert("expandurl"@.len() == 9);
        assert("all"@.len() == 3);
        assert("svc"@ != "svw"@) by {
            assert("svc"@[2] != "svw"@[2]);
        }
        assert("svc"@.len() == 3);
        assert("svw"@.len() == 3);
        assert("all"@ != "svc"@) by {
            assert("all"@[0] != "svc"@[0]);
        }
        assert("all"@ != "svw"@) by {
            assert("all"@[0] != "svw"@[0]);
        }
    }
    if contains_text(msg, "//") {
        state.url = String::from_str(msg);
        state.expanded_url = String::from_str(msg);
        Reaction::ShowUrl(truncate_chars(msg, HEADLINE_CHARS))
    } else if same_text(msg, "expandurl") {
        Reaction::Expand(state.url.clone())
    } else if same_text(msg, "all") {
        Reaction::OpenAll(state.url.clone())
    } else if same_text(msg, "svc") {
        Reaction::CopyToClipboard(state.url.clone())
    } else if same_text(msg, "svw") {
        Reaction::Nothing
    } else {
        Reaction::OpenAndQuit { command: String::from_str(msg), url: state.expanded_url.clone() }
    }
}

/// The address asked to expand `url`: the expansion service's address with the link after it.
pub fn expansion_request(service: &str, url: &str) -> (req: String)
    ensures
        req@ == service@ + url@,
{
    let mut req = String::from_str(service);
    req.append(url);
    req
}

/// The expansion service's answer calls the link invalid: its lower-cased text holds
/// `invalid`.
pub open spec fn answer_is_invalid(answer: Seq<char>) -> bool {
    occurs_in("invalid"@, unicode_lowercase(answer))
}

/// The headline after the expansion service answered `answer`: the answer, or, where it
/// calls the link invalid, the link given on the command line (`None` when there was none,
/// where the chooser has nothing to show and stops).
pub fn expansion_headline(answer: &str, first_arg: Option<&str>) -> (h: Option<String>)
    ensures
        !answer_is_invalid(answer@) ==> (h matches Some(t) && t@ == first_chars(
            answer@,
            HEADLINE_CHARS as nat,
        )),
        answer_is_invalid(answer@) ==> (h is Some <==> first_arg is Some),
        answer_is_invalid(answer@) ==> (h matches Some(t) ==> t@ == first_chars(
            first_arg.unwrap()@,
            HEADLINE_CHARS as nat,
        )),
{
    let lower = to_lowercase(answer);
    if contains_text(lower.as_str(), "invalid") {
        match first_arg {
            Some(a) => Some(truncate_chars(a, HEADLINE_CHARS)),
            None => None,
        }
    } else {
        Some(truncate_chars(answer, HEADLINE_CHARS))
    }
}

} // verus!
