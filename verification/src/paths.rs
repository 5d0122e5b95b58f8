//! Where the daemon's files live: `~/.config/portpal/`.
use vstd::prelude::*;

verus! {

/// `base` joined with the relative path `part`, as `Path::join` does: a
/// separator is added unless `base` is empty or already ends with one.
pub open spec fn joined(base: Seq<char>, part: Seq<char>) -> Seq<char> {
    if base.len() == 0 {
        part
    } else if base.last() == '/' {
        base + part
    } else {
        base + "/"@ + part
    }
}

/// Joins the relative path `part` onto `base`.
pub fn join_path(base: &str, part: &str) -> (res: String)
    ensures
        res@ == joined(base@, part@),
{
    let n = base.unicode_len();
    let mut s = String::from_str(base);
    if n > 0 && base.get_char(n - 1) != '/' {
        s.append("/");
    }
    s.append(part);
    s
}

/// The directory of the daemon's files under the home directory `home`.
pub open spec fn support_dir(home: Seq<char>) -> Seq<char> {
    joined(joined(home, ".config"@), "portpal"@)
}

/// The directory of the configuration and the socket: `~/.config/portpal`.
pub fn application_support_dir(home: &str) -> (res: String)
    ensures
        res@ == support_dir(home@),
{
    let config = join_path(home, ".config");
    join_path(config.as_str(), "portpal")
}

/// The daemon's socket: `~/.config/portpal/portpal.sock`.
pub fn socket_path(home: &str) -> (res: String)
    ensures
        res@ == joined(support_dir(home@), "portpal.sock"@),
{
    let dir = application_support_dir(home);
    join_path(dir.as_str(), "portpal.sock")
}

/// The configuration file: `~/.config/portpal/portpal.toml`.
pub fn config_path(home: &str) -> (res: String)
    ensures
        res@ == joined(support_dir(home@), "portpal.toml"@),
{
    let dir = application_support_dir(home);
    join_path(dir.as_str(), "portpal.toml")
}

} // verus!
