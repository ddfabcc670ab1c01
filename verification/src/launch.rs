//! How a browser command and a link become the program to start and its arguments.

use vstd::prelude::*;
use crate::text::same_text;

verus! {

/// The operating system the chooser runs on, as far as it matters to the chooser.
#[derive(Clone, Copy, PartialEq, Eq, Debug)]
pub enum Platform {
    Windows,
    MacOs,
    Linux,
    Other,
}

/// A process to start: the program, its arguments, and whether it is the platform's own
/// opener of links (used when the browser command names no program).
pub struct LaunchPlan {
    pub program: String,
    pub args: Vec<String>,
    pub default_opener: bool,
}

impl View for LaunchPlan {
    type V = (Seq<char>, Seq<Seq<char>>, bool);

    open spec fn view(&self) -> (Seq<char>, Seq<Seq<char>>, bool) {
        (self.program@, self.args.deep_view(), self.default_opener)
    }
}

/// The words that `shlex::split` makes of a command line, or `None` where it finds the
/// quoting broken; POSIX shell word splitting takes pages to state.
pub uninterp spec fn shell_words(s: Seq<char>) -> Option<Seq<Seq<char>>>;

/// `shlex::split`: the command line `s` split into words as a POSIX shell would, or `None`
/// where the quoting is broken. The contract claims only that the result is what `shlex`
/// gives for `s` (named `shell_words`).
#[verifier::external_body]
fn split_command(s: &str) -> (words: Option<Vec<String>>)
    ensures
        words.deep_view() == shell_words(s@),
{
    shlex::split(s)
}

/// A word of a browser command that stands for the link.
pub open spec fn is_placeholder(w: Seq<char>) -> bool {
    w == "%s"@
}

/// Some word of `ws` stands for the link.
pub open spec fn has_placeholder(ws: Seq<Seq<char>>) -> bool {
    exists|k: int| 0 <= k < ws.len() && is_placeholder(#[trigger] ws[k])
}

/// `ws` with each word that stands for the link replaced by `url`.
pub open spec fn fill_placeholders(ws: Seq<Seq<char>>, url: Seq<char>) -> Seq<Seq<char>> {
    ws.map_values(|w: Seq<char>| if is_placeholder(w) { url } else { w })
}

/// The arguments that open `url` after a browser command's program: the command's other
/// words, with each `%s` replaced by the link; where no word is `%s`, the link comes after
/// them.
pub open spec fn link_arguments(rest: Seq<Seq<char>>, url: Seq<char>) -> Seq<Seq<char>> {
    if has_placeholder(rest) {
        fill_placeholders(rest, url)
    } else {
        rest.push(url)
    }
}

/// The process that opens `url` with a browser command split into `parts`: the command's
/// first word, with its other words as arguments in which each `%s` stands for the link (the
/// link comes last where there is no `%s`); with no words, the platform's own opener of
/// links; nothing where the command could not be split, or where the platform has no known
/// opener.
pub open spec fn launch_spec(parts: Option<Seq<Seq<char>>>, url: Seq<char>, platform: Platform) -> Option<
    (Seq<char>, Seq<Seq<char>>, bool),
> {
    match parts {
        None => None,
        Some(ws) => if ws.len() == 0 {
            match platform {
                Platform::Windows => Some(
                    ("cmd.exe"@, seq!["/c"@, "start"@, ""@, url], true),
                ),
                Platform::MacOs => Some(("open"@, seq![url], true)),
                Platform::Linux => Some(("xdg-open"@, seq![url], true)),
                Platform::Other => None,
            }
        } else {
            Some((ws[0], link_arguments(ws.drop_first(), url), false))
        },
    }
}

/// The link is among the arguments of every process that opens it.
pub proof fn lemma_link_is_an_argument(parts: Option<Seq<Seq<char>>>, url: Seq<char>, platform: Platform)
    requires
        launch_spec(parts, url, platform) is Some,
    ensures
        exists|k: int|
            0 <= k < launch_spec(parts, url, platform).unwrap().1.len() && #[trigger] launch_spec(
                parts,
                url,
                platform,
            ).unwrap().1[k] == url,
{
    let args = launch_spec(parts, url, platform).unwrap().1;
    let ws = parts.unwrap();
    if ws.len() == 0 {
        assert(args[args.len() - 1] == url);
    } else if has_placeholder(ws.drop_first()) {
        let k = choose|k: int| 0 <= k < ws.drop_first().len() && is_placeholder(
            #[trigger] ws.drop_first()[k],
        );
        assert(args[k] == url);
    } else {
        assert(args[args.len() - 1] == url);
    }
}

/// The process that opens `url`, for a browser command already split into `parts`.
pub fn plan_launch(parts: Option<Vec<String>>, url: &str, platform: Platform) -> (res: Result<
    LaunchPlan,
    (),
>)
    ensures
        res is Ok <==> launch_spec(parts.deep_view(), url@, platform) is Some,
        res matches Ok(plan) ==> plan@ == launch_spec(parts.deep_view(), url@, platform).unwrap(),
{
    match parts {
        None => Err(()),
        Some(ws) => {
            if ws.len() == 0 {
                let link = String::from_str(url);
                match platform {
                    Platform::Windows => {
                        let mut args: Vec<String> = Vec::new();
                        args.push(String::from_str("/c"));
                        args.push(String::from_str("start"));
                        args.push(String::from_str(""));
                        args.push(link);
                        let plan = LaunchPlan {
                            program: String::from_str("cmd.exe"),
                            args,
                            default_opener: true,
                        };
                        assert(plan@.1 =~= seq!["/c"@, "start"@, ""@, url@]);
                        Ok(plan)
                    },
                    Platform::MacOs => {
                        let mut args: Vec<String> = Vec::new();
                        args.push(link);
                        let plan = LaunchPlan {
                            program: String::from_str("open"),
                            args,
                            default_opener: true,
                        };
                        assert(plan@.1 =~= seq![url@]);
                        Ok(plan)
                    },
                    Platform::Linux => {
                        let mut args: Vec<String> = Vec::new();
                        args.push(link);
                        let plan = LaunchPlan {
                            program: String::from_str("xdg-open"),
                            args,
                            default_opener: true,
                        };
                        assert(plan@.1 =~= seq![url@]);
                        Ok(plan)
                    },
                    Platform::Other => Err(()),
                }
            } else {
                let ghost wv = ws.deep_view();
                let mut args: Vec<String> = Vec::new();
                let mut found = false;
                let mut k: usize = 1;
                while k < ws.len()
                    invariant
                        wv == ws.deep_view(),
                        1 <= k <= ws@.len(),
                        args.deep_view() == fill_placeholders(wv.subrange(1, k as int), url@),
                        found == has_placeholder(wv.subrange(1, k as int)),
                    decreases ws@.len() - k,
                {
                    let ghost before = args.deep_view();
                    let ghost done = wv.subrange(1, k as int);
                    let ghost next = wv.subrange(1, k + 1);
                    assert(next =~= done.push(wv[k as int]));
                    if same_text(ws[k].as_str(), "%s") {
                        args.push(String::from_str(url));
                        assert(args.deep_view() =~= before.push(url@));
                        found = true;
                        assert(is_placeholder(next[k - 1]));
                    } else {
                        let w = ws[k].clone();
                        assert(w@ == wv[k as int]);
                        args.push(w);
                        assert(args.deep_view() =~= before.push(wv[k as int]));
                        assert(has_placeholder(next) == has_placeholder(done)) by {
                            if has_placeholder(next) {
                                let j = choose|j: int| 0 <= j < next.len() && is_placeholder(
                                    #[trigger] next[j],
                                );
                                assert(j < done.len());
                                assert(done[j] == next[j]);
                            }
                            if has_placeholder(done) {
                                let j = choose|j: int| 0 <= j < done.len() && is_placeholder(
                                    #[trigger] done[j],
                                );
                                assert(next[j] == done[j]);
                            }
                        }
                    }
                    assert(args.deep_view() =~= fill_placeholders(next, url@));
                    k = k + 1;
                }
                assert(wv.subrange(1, ws@.len() as int) =~= wv.drop_first());
                if !found {
                    let ghost before = args.deep_view();
                    args.push(String::from_str(url));
                    assert(args.deep_view() =~= before.push(url@));
                }
                let plan = LaunchPlan { program: ws[0].clone(), args, default_opener: false };
                assert(plan@.1 =~= link_arguments(wv.drop_first(), url@));
                Ok(plan)
            }
        },
    }
}

/// The process that opens `url` with the browser command `command` (a program and its
/// arguments, written as on a shell's command line).
pub fn launch_plan(command: &str, url: &str, platform: Platform) -> (res: Result<LaunchPlan, ()>)
    ensures
        res is Ok <==> launch_spec(shell_words(command@), url@, platform) is Some,
        res matches Ok(plan) ==> plan@ == launch_spec(shell_words(command@), url@, platform).unwrap(),
{
    let parts = split_command(command);
    plan_launch(parts, url, platform)
}


/// The processes that open `url` in every stored browser (name, command), in the stored
/// order: one per browser, as `launch_plan` makes it from the browser's command.
pub fn launch_all(stored: &Vec<(String, String)>, url: &str, platform: Platform) -> (plans: Vec<
    Result<LaunchPlan, ()>,
>)
    ensures
        plans@.len() == stored@.len(),
        forall|k: int|
            0 <= k < stored@.len() ==> (#[trigger] plans@[k] is Ok <==> launch_spec(
                shell_words(stored@[k].1@),
                url@,
                platform,
            ) is Some),
        forall|k: int|
            0 <= k < stored@.len() ==> (#[trigger] plans@[k] matches Ok(p) ==> p@ == launch_spec(
                shell_words(stored@[k].1@),
                url@,
                platform,
            ).unwrap()),
{
    let mut plans: Vec<Result<LaunchPlan, ()>> = Vec::new();
    for i in 0..stored.len()
        invariant
            plans@.len() == i,
            forall|k: int|
                0 <= k < i ==> (#[trigger] plans@[k] is Ok <==> launch_spec(
                    shell_words(stored@[k].1@),
                    url@,
                    platform,
                ) is Some),
            forall|k: int|
                0 <= k < i ==> (#[trigger] plans@[k] matches Ok(p) ==> p@ == launch_spec(
                    shell_words(stored@[k].1@),
                    url@,
                    platform,
                ).unwrap()),
    {
        let p = launch_plan(stored[i].1.as_str(), url, platform);
        plans.push(p);
    }
    plans
}

} // verus!
