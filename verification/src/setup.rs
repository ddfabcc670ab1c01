//! What `reinit` stores: the browsers a platform starts with, and on Windows the browsers
//! that the registry lists.

use vstd::prelude::*;
use crate::launch::Platform;
use crate::order::Entry;
use crate::text::same_text;

verus! {

/// The browsers stored on Linux, as (name, command).
pub open spec fn linux_browsers() -> Seq<Entry> {
    seq![
        ("Firefox Private"@, "firefox --private-window"@),
        ("Firefox"@, "firefox"@),
        ("Chrome"@, "google-chrome"@),
        ("Chromium"@, "chromium"@),
        ("Waterfox"@, "waterfox"@),
        ("Vivaldi"@, "vivaldi-stable"@),
        ("Opera"@, "opera"@),
    ]
}

/// The browsers stored on macOS, as (name, command).
pub open spec fn macos_browsers() -> Seq<Entry> {
    seq![
        ("Firefox Private"@, "open -a Firefox --args --private-window"@),
        ("Firefox"@, "open -a Firefox --args"@),
        ("Chrome"@, "open -a 'Google Chrome' --args"@),
        ("Safari"@, "open -a Safari --args"@),
    ]
}

/// The browsers stored on Windows when the registry lists none, as (name, command).
pub open spec fn windows_fallback_browsers() -> Seq<Entry> {
    seq![
        ("Firefox"@, "firefox.exe"@),
        ("Chrome"@, "chrome.exe"@),
        ("Edge"@, "msedge.exe"@),
        ("Internet Explorer"@, "iexplore.exe"@),
    ]
}

/// The browsers that `reinit` stores, as (name, command). On Windows these are the browsers
/// the registry lists (given as (command, name)), or a fixed list where it lists none; on
/// other platforms a fixed list; none on a platform the chooser does not know.
pub open spec fn default_browsers_spec(platform: Platform, detected: Seq<(Seq<char>, Seq<char>)>) -> Seq<
    Entry,
> {
    match platform {
        Platform::Windows => if detected.len() == 0 {
            windows_fallback_browsers()
        } else {
            detected.map_values(|d: (Seq<char>, Seq<char>)| (d.1, d.0))
        },
        Platform::Linux => linux_browsers(),
        Platform::MacOs => macos_browsers(),
        Platform::Other => seq![],
    }
}

/// A (name, command) pair.
fn entry(name: &str, command: &str) -> (e: (String, String))
    ensures
        e.deep_view() == (name@, command@),
{
    (String::from_str(name), String::from_str(command))
}

/// The browsers that `reinit` stores on `platform`, as (name, command); `detected` are the
/// browsers the Windows registry lists, as (command, name).
pub fn default_browsers(platform: Platform, detected: &Vec<(String, String)>) -> (res: Vec<
    (String, String),
>)
    ensures
        res.deep_view() == default_browsers_spec(platform, detected.deep_view()),
{
    let mut res: Vec<(String, String)> = Vec::new();
    match platform {
        Platform::Windows => {
            if detected.len() == 0 {
                res.push(entry("Firefox", "firefox.exe"));
                res.push(entry("Chrome", "chrome.exe"));
                res.push(entry("Edge", "msedge.exe"));
                res.push(entry("Internet Explorer", "iexplore.exe"));
                assert(res.deep_view() =~= windows_fallback_browsers());
            } else {
                let ghost dv = detected.deep_view();
                for i in 0..detected.len()
                    invariant
                        dv == detected.deep_view(),
                        res.deep_view() == dv.take(i as int).map_values(
                            |d: (Seq<char>, Seq<char>)| (d.1, d.0),
                        ),
                {
                    let e = (detected[i].1.clone(), detected[i].0.clone());
                    let ghost before = res.deep_view();
                    res.push(e);
                    assert(res.deep_view() =~= before.push((dv[i as int].1, dv[i as int].0)));
                    assert(dv.take(i + 1).map_values(|d: (Seq<char>, Seq<char>)| (d.1, d.0))
                        =~= dv.take(i as int).map_values(|d: (Seq<char>, Seq<char>)| (d.1, d.0)).push(
                        (dv[i as int].1, dv[i as int].0),
                    ));
                }
                assert(dv.take(detected@.len() as int) =~= dv);
            }
        },
        Platform::Linux => {
            res.push(entry("Firefox Private", "firefox --private-window"));
            res.push(entry("Firefox", "firefox"));
            res.push(entry("Chrome", "google-chrome"));
            res.push(entry("Chromium", "chromium"));
            res.push(entry("Waterfox", "waterfox"));
            res.push(entry("Vivaldi", "vivaldi-stable"));
            res.push(entry("Opera", "opera"));
            assert(res.deep_view() =~= linux_browsers());
        },
        Platform::MacOs => {
            res.push(entry("Firefox Private", "open -a Firefox --args --private-window"));
            res.push(entry("Firefox", "open -a Firefox --args"));
            res.push(entry("Chrome", "open -a 'Google Chrome' --args"));
            res.push(entry("Safari", "open -a Safari --args"));
            assert(res.deep_view() =~= macos_browsers());
        },
        Platform::Other => {
            assert(res.deep_view() =~= Seq::<Entry>::empty());
        },
    }
    res
}

/// The link-expansion service that `reinit` stores.
pub fn default_expansion_service() -> (s: String)
    ensures
        s@ == "https://unshorten.me/s/"@,
{
    String::from_str("https://unshorten.me/s/")
}

/// A browser as a key under `StartMenuInternet` in the Windows registry describes it: the
/// key's name, the key's default value (its display name) if it has one, and the command
/// under `shell\open\command` if there is one.
pub struct RegistryBrowser {
    pub key_name: String,
    pub display_name: Option<String>,
    pub command: Option<String>,
}

impl View for RegistryBrowser {
    type V = (Seq<char>, Option<Seq<char>>, Option<Seq<char>>);

    open spec fn view(&self) -> (Seq<char>, Option<Seq<char>>, Option<Seq<char>>) {
        (self.key_name@, self.display_name.deep_view(), self.command.deep_view())
    }
}

/// The (command, name) pair of a registry browser that has a command: its display name, or
/// the key's name where it has none.
pub open spec fn registry_pair(e: (Seq<char>, Option<Seq<char>>, Option<Seq<char>>)) -> (
    Seq<char>,
    Seq<char>,
) {
    (
        e.2.unwrap(),
        match e.1 {
            Some(d) => d,
            None => e.0,
        },
    )
}

/// The browsers of the machine-wide registry hive that have a command, in order.
pub open spec fn machine_browsers(m: Seq<(Seq<char>, Option<Seq<char>>, Option<Seq<char>>)>) -> Seq<
    (Seq<char>, Seq<char>),
>
    decreases m.len(),
{
    if m.len() == 0 {
        seq![]
    } else {
        let front = machine_browsers(m.drop_last());
        if m.last().2 is Some {
            front.push(registry_pair(m.last()))
        } else {
            front
        }
    }
}

/// Some pair of `list` has the command `cmd`.
pub open spec fn has_command(list: Seq<(Seq<char>, Seq<char>)>, cmd: Seq<char>) -> bool {
    exists|i: int| 0 <= i < list.len() && #[trigger] list[i].0 == cmd
}

/// `acc` followed by the browsers of the user's registry hive that have a command not
/// listed before them.
pub open spec fn add_user_browsers(
    acc: Seq<(Seq<char>, Seq<char>)>,
    u: Seq<(Seq<char>, Option<Seq<char>>, Option<Seq<char>>)>,
) -> Seq<(Seq<char>, Seq<char>)>
    decreases u.len(),
{
    if u.len() == 0 {
        acc
    } else {
        let front = add_user_browsers(acc, u.drop_last());
        let e = u.last();
        if e.2 is Some && !has_command(front, e.2.unwrap()) {
            front.push(registry_pair(e))
        } else {
            front
        }
    }
}

/// The browsers the registry lists, as (command, name): those of the machine-wide hive,
/// then those of the user's hive whose command is not listed yet.
pub open spec fn detected_browsers(
    m: Seq<(Seq<char>, Option<Seq<char>>, Option<Seq<char>>)>,
    u: Seq<(Seq<char>, Option<Seq<char>>, Option<Seq<char>>)>,
) -> Seq<(Seq<char>, Seq<char>)> {
    add_user_browsers(machine_browsers(m), u)
}

/// The registry views of a list of registry browsers.
pub open spec fn registry_views(v: Seq<RegistryBrowser>) -> Seq<
    (Seq<char>, Option<Seq<char>>, Option<Seq<char>>),
> {
    v.map_values(|e: RegistryBrowser| e@)
}

/// The (command, name) pair of a registry browser that has a command.
fn pair_of(e: &RegistryBrowser) -> (p: (String, String))
    requires
        e.command is Some,
    ensures
        p.deep_view() == registry_pair(e@),
{
    let cmd = match &e.command {
        Some(c) => c.clone(),
        None => String::new(),
    };
    let name = match &e.display_name {
        Some(d) => d.clone(),
        None => e.key_name.clone(),
    };
    (cmd, name)
}

/// Whether some pair of `list` has the command `cmd`.
fn has_command_exec(list: &Vec<(String, String)>, cmd: &str) -> (b: bool)
    ensures
        b == has_command(list.deep_view(), cmd@),
{
    let ghost lv = list.deep_view();
    for i in 0..list.len()
        invariant
            lv == list.deep_view(),
            forall|j: int| 0 <= j < i ==> lv[j].0 != cmd@,
    {
        if same_text(list[i].0.as_str(), cmd) {
            assert(lv[i as int].0 == cmd@);
            return true;
        }
    }
    false
}

/// The browsers the Windows registry lists, as (command, name): those under the machine-wide
/// `StartMenuInternet` key, then those under the user's whose command is not listed yet.
pub fn collect_registry_browsers(machine: &Vec<RegistryBrowser>, user: &Vec<RegistryBrowser>) -> (res: Vec<
    (String, String),
>)
    ensures
        res.deep_view() == detected_browsers(registry_views(machine@), registry_views(user@)),
{
    let ghost mv = registry_views(machine@);
    let ghost uv = registry_views(user@);
    let mut res: Vec<(String, String)> = Vec::new();
    for i in 0..machine.len()
        invariant
            mv == registry_views(machine@),
            res.deep_view() == machine_browsers(mv.take(i as int)),
    {
        assert(mv.take(i + 1).drop_last() =~= mv.take(i as int));
        assert(mv[i as int] == machine@[i as int]@);
        if machine[i].command.is_some() {
            let p = pair_of(&machine[i]);
            let ghost before = res.deep_view();
            res.push(p);
            assert(res.deep_view() =~= before.push(registry_pair(mv[i as int])));
        }
    }
    assert(mv.take(machine@.len() as int) =~= mv);
    let ghost base = res.deep_view();
    for i in 0..user.len()
        invariant
            uv == registry_views(user@),
            base == machine_browsers(mv),
            res.deep_view() == add_user_browsers(base, uv.take(i as int)),
    {
        assert(uv.take(i + 1).drop_last() =~= uv.take(i as int));
        assert(uv[i as int] == user@[i as int]@);
        match &user[i].command {
            Some(c) => {
                if !has_command_exec(&res, c.as_str()) {
                    let p = pair_of(&user[i]);
                    let ghost before = res.deep_view();
                    res.push(p);
                    assert(res.deep_view() =~= before.push(registry_pair(uv[i as int])));
                }
            },
            None => {},
        }
    }
    assert(uv.take(user@.len() as int) =~= uv);
    res
}


/// `m` with only its browsers that have a command, each as (command, name): its display name,
/// or the key's name where it has none.
proof fn lemma_machine_browsers_filtered(m: Seq<(Seq<char>, Option<Seq<char>>, Option<Seq<char>>)>)
    ensures
        machine_browsers(m) == m.filter(
            |e: (Seq<char>, Option<Seq<char>>, Option<Seq<char>>)| e.2 is Some,
        ).map_values(
            |e: (Seq<char>, Option<Seq<char>>, Option<Seq<char>>)|
                (
                    e.2.unwrap(),
                    if e.1 is Some {
                        e.1.unwrap()
                    } else {
                        e.0
                    },
                ),
        ),
    decreases m.len(),
{
    reveal(Seq::filter);
    let p = |e: (Seq<char>, Option<Seq<char>>, Option<Seq<char>>)| e.2 is Some;
    let f = |e: (Seq<char>, Option<Seq<char>>, Option<Seq<char>>)|
        (
            e.2.unwrap(),
            if e.1 is Some {
                e.1.unwrap()
            } else {
                e.0
            },
        );
    if m.len() == 0 {
        assert(m.filter(p).map_values(f) =~= seq![]);
    } else {
        lemma_machine_browsers_filtered(m.drop_last());
        let sub = m.drop_last().filter(p);
        if m.last().2 is Some {
            assert(m.filter(p) == sub.push(m.last()));
            assert(sub.push(m.last()).map_values(f) =~= sub.map_values(f).push(f(m.last())));
        } else {
            assert(m.filter(p) == sub);
        }
    }
}

/// Every command of the machine-wide hive is listed among its browsers.
proof fn lemma_machine_commands_listed(m: Seq<(Seq<char>, Option<Seq<char>>, Option<Seq<char>>)>)
    ensures
        forall|x: int|
            0 <= x < m.len() && (#[trigger] m[x]).2 is Some ==> has_command(
                machine_browsers(m),
                m[x].2.unwrap(),
            ),
    decreases m.len(),
{
    if m.len() > 0 {
        let front = machine_browsers(m.drop_last());
        lemma_machine_commands_listed(m.drop_last());
        let all = machine_browsers(m);
        assert forall|x: int|
            0 <= x < m.len() && (#[trigger] m[x]).2 is Some implies has_command(all, m[x].2.unwrap()) by {
            if x == m.len() - 1 {
                assert(all[front.len() as int].0 == m[x].2.unwrap());
            } else {
                assert(m.drop_last()[x] == m[x]);
                assert(has_command(front, m[x].2.unwrap()));
                let i = choose|i: int| 0 <= i < front.len() && #[trigger] front[i].0 == m[x].2.unwrap();
                assert(all[i] == front[i]);
            }
        }
    }
}

/// `b` is listed from the user's hive `u`: no browser of the machine-wide hive `m` has its
/// command, and it is the first browser of `u` with that command, under the name that browser
/// is shown under.
pub open spec fn from_user_hive(m: Seq<(Seq<char>, Option<Seq<char>>, Option<Seq<char>>)>, u: Seq<(Seq<char>, Option<Seq<char>>, Option<Seq<char>>)>, b: (Seq<char>, Seq<char>)) -> bool {
    &&& forall|y: int| 0 <= y < m.len() ==> (#[trigger] m[y]).2 != Some(b.0)
    &&& exists|x: int| #[trigger] first_user_entry(u, x, b)
}

/// How many browsers of `m` have a command.
pub open spec fn count_with_command(m: Seq<(Seq<char>, Option<Seq<char>>, Option<Seq<char>>)>) -> nat {
    m.filter(|e: (Seq<char>, Option<Seq<char>>, Option<Seq<char>>)| e.2 is Some).len()
}

/// Position `x` of `u` holds the first browser with the command `b.0`, and `b.1` is the name
/// that browser is shown under: its display name, or the key's name where it has none.
pub open spec fn first_user_entry(u: Seq<(Seq<char>, Option<Seq<char>>, Option<Seq<char>>)>, x: int, b: (Seq<char>, Seq<char>)) -> bool {
    &&& 0 <= x < u.len()
    &&& u[x].2 == Some(b.0)
    &&& b.1 == (if u[x].1 is Some {
        u[x].1.unwrap()
    } else {
        u[x].0
    })
    &&& forall|y: int| 0 <= y < x ==> (#[trigger] u[y]).2 != Some(b.0)
}

/// Adding the user's browsers to `acc` lists every command of `u`; and each browser it adds
/// after `acc` has a command that `acc` does not hold and is the first browser of `u` with that
/// command, under its display name or else its key's name.
proof fn lemma_add_user_browsers_sources(acc: Seq<(Seq<char>, Seq<char>)>, u: Seq<(Seq<char>, Option<Seq<char>>, Option<Seq<char>>)>)
    ensures
        forall|x: int|
            0 <= x < u.len() && (#[trigger] u[x]).2 is Some ==> has_command(
                add_user_browsers(acc, u),
                u[x].2.unwrap(),
            ),
        forall|j: int|
            acc.len() <= j < add_user_browsers(acc, u).len() ==> {
                let b = #[trigger] add_user_browsers(acc, u)[j];
                &&& !has_command(acc, b.0)
                &&& exists|x: int| #[trigger] first_user_entry(u, x, b)
            },
    decreases u.len(),
{
    if u.len() > 0 {
        let v = u.drop_last();
        let front = add_user_browsers(acc, v);
        let all = add_user_browsers(acc, u);
        let e = u.last();
        lemma_add_user_browsers_sources(acc, v);
        lemma_add_user_browsers(acc, v);
        assert forall|c: Seq<char>| has_command(acc, c) implies has_command(front, c) by {
            let i = choose|i: int| 0 <= i < acc.len() && #[trigger] acc[i].0 == c;
            assert(front.take(acc.len() as int)[i] == front[i]);
        }
        assert forall|k: int| 0 <= k < front.len() implies #[trigger] all[k] == front[k] by {}
        assert forall|x: int, b: (Seq<char>, Seq<char>)|
            #[trigger] first_user_entry(v, x, b) implies first_user_entry(u, x, b) by {
            assert(v[x] == u[x]);
            assert forall|y: int| 0 <= y < x implies (#[trigger] u[y]).2 != Some(b.0) by {
                assert(v[y] == u[y]);
            }
        }
        assert forall|x: int|
            0 <= x < u.len() && (#[trigger] u[x]).2 is Some implies has_command(all, u[x].2.unwrap()) by {
            if x == u.len() - 1 {
                if !has_command(front, e.2.unwrap()) {
                    assert(all[front.len() as int].0 == e.2.unwrap());
                } else {
                    let i = choose|i: int| 0 <= i < front.len() && #[trigger] front[i].0 == e.2.unwrap();
                    assert(all[i] == front[i]);
                }
            } else {
                assert(v[x] == u[x]);
                let i = choose|i: int| 0 <= i < front.len() && #[trigger] front[i].0 == u[x].2.unwrap();
                assert(all[i] == front[i]);
            }
        }
        assert forall|j: int| acc.len() <= j < all.len() implies {
            let b = #[trigger] all[j];
            &&& !has_command(acc, b.0)
            &&& exists|x: int| #[trigger] first_user_entry(u, x, b)
        } by {
            if j < front.len() {
                let b = front[j];
                assert(all[j] == b);
                let x = choose|x: int| #[trigger] first_user_entry(v, x, b);
                assert(first_user_entry(u, x, b));
            } else {
                let c = e.2.unwrap();
                assert(all[j] == registry_pair(e));
                assert(!has_command(front, c));
                assert forall|y: int| 0 <= y < u.len() - 1 implies (#[trigger] u[y]).2 != Some(c) by {
                    if u[y].2 == Some(c) {
                        assert(v[y] == u[y]);
                        assert(has_command(front, v[y].2.unwrap()));
                    }
                }
                assert(first_user_entry(u, u.len() - 1, all[j]));
            }
        }
    }
}

/// Adding the user's browsers keeps `acc` in front and adds only commands not listed before.
proof fn lemma_add_user_browsers(
    acc: Seq<(Seq<char>, Seq<char>)>,
    u: Seq<(Seq<char>, Option<Seq<char>>, Option<Seq<char>>)>,
)
    ensures
        add_user_browsers(acc, u).len() >= acc.len(),
        add_user_browsers(acc, u).take(acc.len() as int) == acc,
        forall|i: int, j: int|
            0 <= i < j < add_user_browsers(acc, u).len() && j >= acc.len() ==> (
            #[trigger] add_user_browsers(acc, u)[i]).0 != (#[trigger] add_user_browsers(
                acc,
                u,
            )[j]).0,
    decreases u.len(),
{
    if u.len() == 0 {
        assert(acc.take(acc.len() as int) =~= acc);
    } else {
        lemma_add_user_browsers(acc, u.drop_last());
        let front = add_user_browsers(acc, u.drop_last());
        let e = u.last();
        if e.2 is Some && !has_command(front, e.2.unwrap()) {
            let all = front.push(registry_pair(e));
            assert(all.take(acc.len() as int) =~= front.take(acc.len() as int));
            assert forall|i: int, j: int|
                0 <= i < j < all.len() && j >= acc.len() implies (#[trigger] all[i]).0 != (
            #[trigger] all[j]).0 by {
                if j == front.len() {
                    assert(all[i] == front[i]);
                    if front[i].0 == e.2.unwrap() {
                        assert(has_command(front, e.2.unwrap()));
                    }
                } else {
                    assert(all[i] == front[i]);
                    assert(all[j] == front[j]);
                }
            }
        }
    }
}

/// The registry's browsers are listed with the machine-wide ones first, in their order; and
/// a browser of the user's hive is never listed with a command that is already listed.
pub proof fn lemma_detected_browsers(
    m: Seq<(Seq<char>, Option<Seq<char>>, Option<Seq<char>>)>,
    u: Seq<(Seq<char>, Option<Seq<char>>, Option<Seq<char>>)>,
)
    ensures
        detected_browsers(m, u).take(machine_browsers(m).len() as int) == machine_browsers(m),
        forall|i: int, j: int|
            0 <= i < j < detected_browsers(m, u).len() && j >= machine_browsers(m).len() ==> (
            #[trigger] detected_browsers(m, u)[i]).0 != (#[trigger] detected_browsers(m, u)[j]).0,
{
    lemma_add_user_browsers(machine_browsers(m), u);
}

/// Where each browser the registry lists comes from. First come the browsers of the
/// machine-wide hive that have a command, in their order, each as (command, name) with its
/// display name, or the key's name where it has none. After them, each browser has a command
/// that no browser of the machine-wide hive has, and is the first browser of the user's hive
/// with that command, with its display name, or the key's name where it has none. Every
/// command of either hive is listed.
pub proof fn lemma_detected_browsers_sources(m: Seq<(Seq<char>, Option<Seq<char>>, Option<Seq<char>>)>, u: Seq<(Seq<char>, Option<Seq<char>>, Option<Seq<char>>)>)
    ensures
        detected_browsers(m, u).take(
            m.filter(|e: (Seq<char>, Option<Seq<char>>, Option<Seq<char>>)| e.2 is Some).len() as int,
        ) == m.filter(|e: (Seq<char>, Option<Seq<char>>, Option<Seq<char>>)| e.2 is Some).map_values(
            |e: (Seq<char>, Option<Seq<char>>, Option<Seq<char>>)|
                (
                    e.2.unwrap(),
                    if e.1 is Some {
                        e.1.unwrap()
                    } else {
                        e.0
                    },
                ),
        ),
        forall|j: int|
            count_with_command(m) <= j < detected_browsers(m, u).len() ==> from_user_hive(
                m,
                u,
                #[trigger] detected_browsers(m, u)[j],
            ),
        forall|x: int|
            0 <= x < m.len() && (#[trigger] m[x]).2 is Some ==> has_command(
                detected_browsers(m, u),
                m[x].2.unwrap(),
            ),
        forall|x: int|
            0 <= x < u.len() && (#[trigger] u[x]).2 is Some ==> has_command(
                detected_browsers(m, u),
                u[x].2.unwrap(),
            ),
{
    let mb = machine_browsers(m);
    let d = detected_browsers(m, u);
    lemma_machine_browsers_filtered(m);
    lemma_machine_commands_listed(m);
    lemma_add_user_browsers(mb, u);
    lemma_add_user_browsers_sources(mb, u);
    assert(m.filter(|e: (Seq<char>, Option<Seq<char>>, Option<Seq<char>>)| e.2 is Some).len() == mb.len());
    assert forall|c: Seq<char>| has_command(mb, c) implies has_command(d, c) by {
        let i = choose|i: int| 0 <= i < mb.len() && #[trigger] mb[i].0 == c;
        assert(d.take(mb.len() as int)[i] == d[i]);
    }
    assert forall|j: int|
        count_with_command(m) <= j < detected_browsers(m, u).len() implies from_user_hive(
        m,
        u,
        #[trigger] detected_browsers(m, u)[j],
    ) by {
        let b = detected_browsers(m, u)[j];
        assert(add_user_browsers(mb, u)[j] == b);
        assert forall|y: int| 0 <= y < m.len() implies (#[trigger] m[y]).2 != Some(b.0) by {
            if m[y].2 == Some(b.0) {
                assert(has_command(mb, m[y].2.unwrap()));
            }
        }
    }
}

} // verus!
