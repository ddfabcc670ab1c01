//! Registering the chooser as the handler of web links on Windows: the registry values it
//! writes and the keys it removes, under `HKEY_CURRENT_USER`.

use vstd::prelude::*;
use crate::text::{begins_with, chars_of, occurs_in};

verus! {

/// A registry value to write: (key path, value name, value data).
pub type RegistryValue = (Seq<char>, Seq<char>, Seq<char>);

/// The command that starts the chooser with a link: the quoted program, then `"%1"`.
pub open spec fn launch_command(exe_path: Seq<char>) -> Seq<char> {
    "\""@ + exe_path + "\" \"%1\""@
}

/// The key that registers the chooser's program file under `Applications`.
pub open spec fn application_key(exe_name: Seq<char>) -> Seq<char> {
    "Software\\Classes\\Applications\\"@ + exe_name
}

/// The chooser's ProgID key.
pub open spec fn progid_key() -> Seq<char> {
    "Software\\Classes\\Perlink.URLHandler"@
}

/// The key under which the chooser keeps its capabilities.
pub open spec fn perlink_key() -> Seq<char> {
    "Software\\Perlink"@
}

/// The chooser's capabilities key.
pub open spec fn capabilities_key() -> Seq<char> {
    perlink_key() + "\\Capabilities"@
}

/// The key of the `perlink` protocol.
pub open spec fn protocol_key() -> Seq<char> {
    "Software\\Classes\\perlink"@
}

/// The subkey, below a registered key, that holds the command starting the chooser.
pub open spec fn command_subkey() -> Seq<char> {
    "\\shell\\open\\command"@
}

/// The values written to register the chooser, in the order they are written: its ProgID
/// and the command of that ProgID, its entry under `RegisteredApplications` and its
/// capabilities for `http` and `https`, the entry of its program file, and the `perlink`
/// protocol.
pub open spec fn registration_values(exe_path: Seq<char>, exe_name: Seq<char>) -> Seq<RegistryValue> {
    let command = launch_command(exe_path);
    let app = application_key(exe_name);
    let associations = capabilities_key() + "\\UrlAssociations"@;
    seq![
        (progid_key(), ""@, "Perlink Browser Chooser"@),
        (progid_key(), "URL Protocol"@, ""@),
        (progid_key() + command_subkey(), ""@, command),
        ("Software\\RegisteredApplications"@, "Perlink"@, "Software\\Perlink\\Capabilities"@),
        (capabilities_key(), "ApplicationName"@, "Perlink Browser Chooser"@),
        (
            capabilities_key(),
            "ApplicationDescription"@,
            "A browser chooser application for selecting which browser to open URLs with"@,
        ),
        (associations, "http"@, "Perlink.URLHandler"@),
        (associations, "https"@, "Perlink.URLHandler"@),
        (app, ""@, "Perlink Browser Chooser"@),
        (app + "\\SupportedTypes"@, "http"@, ""@),
        (app + "\\SupportedTypes"@, "https"@, ""@),
        (app + command_subkey(), ""@, command),
        (protocol_key(), ""@, "URL:perlink Protocol"@),
        (protocol_key(), "URL Protocol"@, ""@),
        (protocol_key() + command_subkey(), ""@, command),
    ]
}

/// A registry value to write.
fn value(key: &str, name: &str, data: &str) -> (v: (String, String, String))
    ensures
        v.deep_view() == (key@, name@, data@),
{
    (String::from_str(key), String::from_str(name), String::from_str(data))
}

/// `prefix` followed by `rest`.
fn joined(prefix: &str, rest: &str) -> (s: String)
    ensures
        s@ == prefix@ + rest@,
{
    let mut s = String::from_str(prefix);
    s.append(rest);
    s
}

/// The registry values that register the chooser, whose program is `exe_path` and whose
/// program file is named `exe_name`, as the handler of web links.
pub fn registration_plan(exe_path: &str, exe_name: &str) -> (plan: Vec<(String, String, String)>)
    ensures
        plan.deep_view() == registration_values(exe_path@, exe_name@),
{
    let mut command = joined("\"", exe_path);
    command.append("\" \"%1\"");
    let progid = "Software\\Classes\\Perlink.URLHandler";
    let progid_command = joined(progid, "\\shell\\open\\command");
    let capabilities = joined("Software\\Perlink", "\\Capabilities");
    let associations = joined(capabilities.as_str(), "\\UrlAssociations");
    let app = joined("Software\\Classes\\Applications\\", exe_name);
    let types = joined(app.as_str(), "\\SupportedTypes");
    let app_command = joined(app.as_str(), "\\shell\\open\\command");
    let protocol = "Software\\Classes\\perlink";
    let protocol_command = joined(protocol, "\\shell\\open\\command");
    let c = command.as_str();
    let mut plan: Vec<(String, String, String)> = Vec::new();
    plan.push(value(progid, "", "Perlink Browser Chooser"));
    plan.push(value(progid, "URL Protocol", ""));
    plan.push(value(progid_command.as_str(), "", c));
    plan.push(value("Software\\RegisteredApplications", "Perlink", "Software\\Perlink\\Capabilities"));
    plan.push(value(capabilities.as_str(), "ApplicationName", "Perlink Browser Chooser"));
    plan.push(
        value(
            capabilities.as_str(),
            "ApplicationDescription",
            "A browser chooser application for selecting which browser to open URLs with",
        ),
    );
    plan.push(value(associations.as_str(), "http", "Perlink.URLHandler"));
    plan.push(value(associations.as_str(), "https", "Perlink.URLHandler"));
    plan.push(value(app.as_str(), "", "Perlink Browser Chooser"));
    plan.push(value(types.as_str(), "http", ""));
    plan.push(value(types.as_str(), "https", ""));
    plan.push(value(app_command.as_str(), "", c));
    plan.push(value(protocol, "", "URL:perlink Protocol"));
    plan.push(value(protocol, "URL Protocol", ""));
    plan.push(value(protocol_command.as_str(), "", c));
    assert(plan.deep_view() =~= registration_values(exe_path@, exe_name@));
    plan
}

/// The keys removed, with all they hold, to undo the registration: the entry of the program
/// file, the commands of `http` and `https`, the `perlink` protocol, the ProgID, and the key
/// holding the capabilities.
pub open spec fn unregistration_keys_spec(exe_name: Seq<char>) -> Seq<Seq<char>> {
    seq![
        application_key(exe_name),
        "Software\\Classes\\http\\shell\\open\\command"@,
        "Software\\Classes\\https\\shell\\open\\command"@,
        protocol_key(),
        progid_key(),
        perlink_key(),
    ]
}

/// The single values removed to undo the registration, as (key, value name): the chooser's
/// entry under `RegisteredApplications`.
pub open spec fn unregistration_values_spec() -> Seq<(Seq<char>, Seq<char>)> {
    seq![("Software\\RegisteredApplications"@, "Perlink"@)]
}

/// The registry keys removed, with all they hold, to undo the registration of the program
/// file `exe_name`.
pub fn unregistration_keys(exe_name: &str) -> (keys: Vec<String>)
    ensures
        keys.deep_view() == unregistration_keys_spec(exe_name@),
{
    let mut keys: Vec<String> = Vec::new();
    keys.push(joined("Software\\Classes\\Applications\\", exe_name));
    keys.push(String::from_str("Software\\Classes\\http\\shell\\open\\command"));
    keys.push(String::from_str("Software\\Classes\\https\\shell\\open\\command"));
    keys.push(String::from_str("Software\\Classes\\perlink"));
    keys.push(String::from_str("Software\\Classes\\Perlink.URLHandler"));
    keys.push(String::from_str("Software\\Perlink"));
    assert(keys.deep_view() =~= unregistration_keys_spec(exe_name@));
    keys
}

/// The single registry values removed to undo the registration, as (key, value name).
pub fn unregistration_values() -> (values: Vec<(String, String)>)
    ensures
        values.deep_view() == unregistration_values_spec(),
{
    let mut values: Vec<(String, String)> = Vec::new();
    values.push(
        (String::from_str("Software\\RegisteredApplications"), String::from_str("Perlink")),
    );
    assert(values.deep_view() =~= unregistration_values_spec());
    values
}

/// `key` is the key `parent` or lies below it.
pub open spec fn lies_under(key: Seq<char>, parent: Seq<char>) -> bool {
    key == parent || (parent.len() < key.len() && key.take(parent.len() + 1int) == parent.push('\\'))
}

/// Undoing the registration of `exe_name` removes the value `name` of `key`: the key lies
/// under a removed key, or the value is removed by itself.
pub open spec fn removed_by_unregistration(key: Seq<char>, name: Seq<char>, exe_name: Seq<char>) -> bool {
    ||| exists|i: int|
        0 <= i < unregistration_keys_spec(exe_name).len() && lies_under(
            key,
            #[trigger] unregistration_keys_spec(exe_name)[i],
        )
    ||| unregistration_values_spec().contains((key, name))
}

/// A key made of `parent`, then a part starting with `\`, then anything, lies under `parent`.
proof fn lemma_lies_under(parent: Seq<char>, sub: Seq<char>, rest: Seq<char>)
    requires
        sub.len() > 0,
        sub[0] == '\\',
    ensures
        lies_under(parent + sub + rest, parent),
{
    assert((parent + sub + rest).take(parent.len() + 1int) =~= parent.push('\\'));
}

/// Undoing the registration removes every value that registering wrote, for the same program
/// file.
pub proof fn lemma_unregistration_removes_registration(exe_path: Seq<char>, exe_name: Seq<char>)
    ensures
        forall|k: int|
            0 <= k < registration_values(exe_path, exe_name).len() ==> removed_by_unregistration(
                (#[trigger] registration_values(exe_path, exe_name)[k]).0,
                registration_values(exe_path, exe_name)[k].1,
                exe_name,
            ),
{
    reveal_strlit("\\shell\\open\\command");
    reveal_strlit("\\Capabilities");
    reveal_strlit("\\UrlAssociations");
    reveal_strlit("\\SupportedTypes");
    let empty: Seq<char> = seq![];
    let ks = unregistration_keys_spec(exe_name);
    let regs = registration_values(exe_path, exe_name);
    let app = application_key(exe_name);
    lemma_lies_under(progid_key(), command_subkey(), empty);
    assert(progid_key() + command_subkey() + empty =~= progid_key() + command_subkey());
    lemma_lies_under(perlink_key(), "\\Capabilities"@, empty);
    assert(perlink_key() + "\\Capabilities"@ + empty =~= capabilities_key());
    lemma_lies_under(perlink_key(), "\\Capabilities"@, "\\UrlAssociations"@);
    lemma_lies_under(app, "\\SupportedTypes"@, empty);
    assert(app + "\\SupportedTypes"@ + empty =~= app + "\\SupportedTypes"@);
    lemma_lies_under(app, command_subkey(), empty);
    assert(app + command_subkey() + empty =~= app + command_subkey());
    lemma_lies_under(protocol_key(), command_subkey(), empty);
    assert(protocol_key() + command_subkey() + empty =~= protocol_key() + command_subkey());
    assert(unregistration_values_spec()[0] == ("Software\\RegisteredApplications"@, "Perlink"@));
    assert forall|k: int| 0 <= k < regs.len() implies removed_by_unregistration(
        (#[trigger] regs[k]).0,
        regs[k].1,
        exe_name,
    ) by {
        if k <= 2 {
            assert(lies_under(regs[k].0, ks[4]));
        } else if k == 3 {
            assert(unregistration_values_spec().contains((regs[k].0, regs[k].1)));
        } else if k <= 7 {
            assert(lies_under(regs[k].0, ks[5]));
        } else if k <= 11 {
            assert(lies_under(regs[k].0, ks[0]));
        } else {
            assert(lies_under(regs[k].0, ks[3]));
        }
    }
}

/// A path that is one plain name: not empty, not `.` or `..`, and free of the characters
/// that separate components or start a prefix on any platform (`/`, `\\`, `:`).
pub open spec fn is_single_name(p: Seq<char>) -> bool {
    &&& p.len() > 0
    &&& p != "."@
    &&& p != ".."@
    &&& forall|i: int| 0 <= i < p.len() ==> #[trigger] p[i] != '/' && p[i] != '\\' && p[i] != ':'
}

/// A path whose last component is `..`: the path `..` itself, or one ending in `/..`.
pub open spec fn ends_in_parent(p: Seq<char>) -> bool {
    p == ".."@ || (p.len() >= 3 && p.subrange(p.len() - 3, p.len() as int) == "/.."@)
}

/// A file name found in `path`, if any: a non-empty piece of the path without `/` (which
/// separates components on every platform).
pub open spec fn is_piece_of_path(found: Option<Seq<char>>, path: Seq<char>) -> bool {
    match found {
        None => true,
        Some(n) => n.len() > 0 && occurs_in(n, path) && forall|i: int| 0 <= i < n.len() ==> #[trigger] n[i] != '/',
    }
}

/// A path that every platform reads the same way, with `/` alone separating its components:
/// it holds no `\\` and no `:` (which start a prefix on Windows), and does not begin with `//`
/// (a network share on Windows).
pub open spec fn is_slash_path(p: Seq<char>) -> bool {
    &&& forall|k: int| 0 <= k < p.len() ==> #[trigger] p[k] != '\\' && p[k] != ':'
    &&& !begins_with(p, "//"@)
}

/// `i` is where the last `/` of `p` stands.
pub open spec fn is_last_slash(p: Seq<char>, i: int) -> bool {
    &&& 0 <= i < p.len()
    &&& p[i] == '/'
    &&& forall|j: int| i < j < p.len() ==> #[trigger] p[j] != '/'
}

/// `std::path::Path::file_name`, as text: the last component of `path`, if it has one that is
/// text. Also claimed: in a path read the same way on every platform, a plain name after
/// the last `/` is the file name. Claimed: what it finds is a non-empty piece of the path (the component it borrows)
/// holding no `/`; a path that is one plain name is its own file name (its only component, a
/// normal one); a path that ends in `..` has none (as the documentation says). Which piece it
/// is for other paths differs between platforms and is not claimed.
#[verifier::external_body]
fn file_name_of(path: &str) -> (name: Option<String>)
    ensures
        is_piece_of_path(name.deep_view(), path@),
        is_single_name(path@) ==> name.deep_view() == Some(path@),
        ends_in_parent(path@) ==> name.deep_view() == None::<Seq<char>>,
        forall|i: int|
            #[trigger] is_last_slash(path@, i) && is_slash_path(path@) && is_single_name(
                path@.subrange(i + 1, path@.len() as int),
            ) ==> name.deep_view() == Some(path@.subrange(i + 1, path@.len() as int)),
{
    std::path::Path::new(path).file_name().and_then(|n| n.to_str()).map(|n| n.to_string())
}

/// The name used for the program file: the file name that was found, else `perlink.exe`.
pub fn program_file_name_or_default(found: Option<String>) -> (name: String)
    ensures
        found matches Some(f) ==> name@ == f@,
        found is None ==> name@ == "perlink.exe"@,
{
    match found {
        Some(f) => f,
        None => String::from_str("perlink.exe"),
    }
}

/// `i` is where the last separator of `p` stands, reading both `/` and `\\` as separators
/// (as Windows does).
pub open spec fn is_last_separator(p: Seq<char>, i: int) -> bool {
    &&& 0 <= i < p.len()
    &&& (p[i] == '/' || p[i] == '\\')
    &&& forall|j: int| i < j < p.len() ==> #[trigger] p[j] != '/' && p[j] != '\\'
}

/// What follows position `i` of `p`.
pub open spec fn after(p: Seq<char>, i: int) -> Seq<char> {
    p.subrange(i + 1, p.len() as int)
}

/// Where the last `/` or `\\` of `p` stands, if it holds one.
fn last_separator(p: &Vec<char>) -> (r: Option<usize>)
    ensures
        r matches Some(i) ==> is_last_separator(p@, i as int),
        r is None ==> forall|j: int| 0 <= j < p@.len() ==> #[trigger] p@[j] != '/' && p@[j] != '\\',
{
    let mut k: usize = p.len();
    while k > 0
        invariant
            k <= p@.len(),
            forall|j: int| k <= j < p@.len() ==> #[trigger] p@[j] != '/' && p@[j] != '\\',
        decreases k,
    {
        let c: char = p[k - 1];
        if c == '/' || c == '\\' {
            return Some(k - 1);
        }
        k = k - 1;
    }
    None
}

/// Whether what follows position `start - 1` of `p` is one plain name.
fn is_plain_tail(p: &Vec<char>, start: usize) -> (b: bool)
    requires
        start <= p@.len(),
    ensures
        b == is_single_name(p@.subrange(start as int, p@.len() as int)),
{
    let ghost t = p@.subrange(start as int, p@.len() as int);
    proof {
        reveal_strlit(".");
        reveal_strlit("..");
    }
    let n: usize = p.len();
    if start == n {
        return false;
    }
    if n - start == 1 && p[start] == '.' {
        assert(t =~= "."@);
        return false;
    }
    if n - start == 2 && p[start] == '.' && p[start + 1] == '.' {
        assert(t =~= ".."@);
        return false;
    }
    assert(t != "."@) by {
        if t == "."@ {
            assert(t[0] == "."@[0]);
        }
    }
    assert(t != ".."@) by {
        if t == ".."@ {
            assert(t[0] == ".."@[0]);
            assert(t[1] == ".."@[1]);
        }
    }
    let mut k: usize = start;
    while k < n
        invariant
            start <= k <= n,
            n == p@.len(),
            t == p@.subrange(start as int, n as int),
            forall|j: int| 0 <= j < k - start ==> #[trigger] t[j] != '/' && t[j] != '\\' && t[j] != ':',
        decreases n - k,
    {
        let c: char = p[k];
        if c == '/' || c == '\\' || c == ':' {
            assert(t[k - start] == c);
            return false;
        }
        k = k + 1;
    }
    true
}

/// The name of the program file of `exe_path`, or `perlink.exe` where the path has no file
/// name. The name serves to register the program with Windows, so the path is read as Windows
/// reads it, with `\\` a separator as well as `/`: where a plain name follows the last
/// separator, that name is the program file name. A path that is one plain name is its own
/// program file name, and a path ending in `..` gets `perlink.exe`. For the remaining paths the
/// name is a piece of the path that holds no `/`, as the platform's path reading finds it.
pub fn program_file_name(exe_path: &str) -> (name: String)
    ensures
        name@ == "perlink.exe"@ || is_piece_of_path(Some(name@), exe_path@),
        is_single_name(exe_path@) ==> name@ == exe_path@,
        ends_in_parent(exe_path@) ==> name@ == "perlink.exe"@,
        forall|i: int|
            #[trigger] is_last_separator(exe_path@, i) && is_single_name(after(exe_path@, i))
                ==> name@ == after(exe_path@, i),
        forall|i: int|
            #[trigger] is_last_slash(exe_path@, i) && is_slash_path(exe_path@) && is_single_name(
                exe_path@.subrange(i + 1, exe_path@.len() as int),
            ) ==> name@ == exe_path@.subrange(i + 1, exe_path@.len() as int),
{
    let p = chars_of(exe_path);
    let n: usize = p.len();
    match last_separator(&p) {
        Some(k) => {
            assert(is_last_separator(p@, k as int));
            assert(k < n);
            if is_plain_tail(&p, k + 1) {
                let name = String::from_str(exe_path.substring_char(k + 1, n));
                proof {
                    let path = exe_path@;
                    let t = after(path, k as int);
                    assert(name@ == t);
                    assert forall|i: int| #[trigger] is_last_separator(path, i) implies i == k by {
                        if i < k {
                            assert(path[k as int] != '/' && path[k as int] != '\\');
                        } else if i > k {
                            assert(path[i] != '/' && path[i] != '\\');
                        }
                    }
                    assert forall|i: int|
                        #[trigger] is_last_slash(path, i) && is_slash_path(path) implies i == k by {
                        assert forall|j: int| i < j < path.len() implies #[trigger] path[j] != '/'
                            && path[j] != '\\' by {}
                        assert(is_last_separator(path, i));
                    }
                    assert(path.subrange(k + 1, k + 1 + t.len()) =~= t);
                    assert(occurs_in(t, path));
                    assert forall|j: int| 0 <= j < t.len() implies #[trigger] t[j] != '/' by {}
                    assert(!is_single_name(path)) by {
                        assert(path[k as int] == '/' || path[k as int] == '\\');
                    }
                    if ends_in_parent(path) {
                        reveal_strlit("..");
                        reveal_strlit("/..");
                        if path == ".."@ {
                            assert(path[k as int] == ".."@[k as int]);
                        } else {
                            let e = path.subrange(path.len() - 3, path.len() as int);
                            assert(e[0] == "/.."@[0] && e[1] == "/.."@[1] && e[2] == "/.."@[2]);
                            assert(path[path.len() - 3] == '/');
                            assert(path[path.len() - 2] == '.');
                            assert(path[path.len() - 1] == '.');
                            assert(is_last_separator(path, path.len() - 3));
                            assert(t =~= ".."@);
                        }
                    }
                }
                return name;
            }
        },
        None => {},
    }
    program_file_name_or_default(file_name_of(exe_path))
}

} // verus!
