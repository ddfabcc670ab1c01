//! What the chooser is asked to do by its command line.

use vstd::prelude::*;
use crate::text::{begins_with, same_text, starts_with_text};

verus! {

/// What the first command-line argument asks for.
pub enum CliAction {
    /// `reinit`: forget the stored browsers and store the platform's defaults.
    Reinit,
    /// `add NAME COMMAND`: store one more browser.
    Add { name: String, command: String },
    /// `clear`: forget all stored browsers.
    Clear,
    /// `install`: register the chooser as a handler of web links (Windows).
    Install,
    /// `uninstall`: remove that registration.
    Uninstall,
    /// A link (`http://…` or `https://…`) to choose a browser for.
    OpenUrl(String),
    /// Anything else: refused.
    Unknown(String),
    /// No argument: offer the links found on the screen and the clipboard.
    NoArgument,
}

/// One of the command words the chooser knows.
pub open spec fn is_command_word(a: Seq<char>) -> bool {
    a == "reinit"@ || a == "add"@ || a == "clear"@ || a == "install"@ || a == "uninstall"@
}

/// An argument that is taken as a web link.
pub open spec fn is_link_argument(a: Seq<char>) -> bool {
    begins_with(a, "http://"@) || begins_with(a, "https://"@)
}

/// The action that the arguments `args` (the program's name first) ask for.
/// `add` needs the browser's name and command after it.
pub fn parse_args(args: &Vec<String>) -> (act: CliAction)
    requires
        args@.len() >= 2 && args@[1]@ == "add"@ ==> args@.len() >= 4,
    ensures
        args@.len() < 2 ==> act is NoArgument,
        args@.len() >= 2 && args@[1]@ == "reinit"@ ==> act is Reinit,
        args@.len() >= 2 && args@[1]@ == "add"@ ==> (act matches CliAction::Add { name, command }
            && name@ == args@[2]@ && command@ == args@[3]@),
        args@.len() >= 2 && args@[1]@ == "clear"@ ==> act is Clear,
        args@.len() >= 2 && args@[1]@ == "install"@ ==> act is Install,
        args@.len() >= 2 && args@[1]@ == "uninstall"@ ==> act is Uninstall,
        args@.len() >= 2 && !is_command_word(args@[1]@) && is_link_argument(args@[1]@) ==> (
        act matches CliAction::OpenUrl(u) && u@ == args@[1]@),
        args@.len() >= 2 && !is_command_word(args@[1]@) && !is_link_argument(args@[1]@) ==> (
        act matches CliAction::Unknown(u) && u@ == args@[1]@),
{
    proof {
        reveal_strlit("reinit");
        reveal_strlit("add");
        reveal_strlit("clear");
        reveal_strlit("install");
        reveal_strlit("uninstall");
        assert("reinit"@.len() == 6);
        assert("add"@.len() == 3);
        assert("clear"@.len() == 5);
        assert("install"@.len() == 7);
        assert("uninstall"@.len() == 9);
    }
    if args.len() < 2 {
        return CliAction::NoArgument;
    }
    let a = args[1].as_str();
    if same_text(a, "reinit") {
        CliAction::Reinit
    } else if same_text(a, "add") {
        CliAction::Add { name: args[2].clone(), command: args[3].clone() }
    } else if same_text(a, "clear") {
        CliAction::Clear
    } else if same_text(a, "install") {
        CliAction::Install
    } else if same_text(a, "uninstall") {
        CliAction::Uninstall
    } else if starts_with_text(a, "http://") || starts_with_text(a, "https://") {
        CliAction::OpenUrl(String::from_str(a))
    } else {
        CliAction::Unknown(String::from_str(a))
    }
}

} // verus!
