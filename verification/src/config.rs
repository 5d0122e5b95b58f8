//! The connection configuration: its shape, its validation rules, the sample
//! file and the decisions around loading and creating the file.
use vstd::prelude::*;

use crate::text::{decimal, decimal_string, is_blank, is_blank_str};

verus! {

/// The grace period, in seconds, given to a tunnel whose configuration does
/// not name one.
pub const DEFAULT_STARTUP_GRACE_SECS: u64 = 3;

/// One configured port forward.
#[derive(Debug)]
pub struct ConnectionConfig {
    pub name: String,
    pub ssh_host: String,
    pub local_port: u16,
    pub remote_host: String,
    pub remote_port: u16,
    pub auto_start: bool,
    pub reconnect_delay_seconds: u64,
    pub startup_grace_period_seconds: Option<u64>,
}

/// The mathematical value of a [`ConnectionConfig`].
pub struct ConnectionConfigView {
    pub name: Seq<char>,
    pub ssh_host: Seq<char>,
    pub local_port: u16,
    pub remote_host: Seq<char>,
    pub remote_port: u16,
    pub auto_start: bool,
    pub reconnect_delay_seconds: u64,
    pub startup_grace_period_seconds: Option<u64>,
}

impl View for ConnectionConfig {
    type V = ConnectionConfigView;

    open spec fn view(&self) -> ConnectionConfigView {
        ConnectionConfigView {
            name: self.name@,
            ssh_host: self.ssh_host@,
            local_port: self.local_port,
            remote_host: self.remote_host@,
            remote_port: self.remote_port,
            auto_start: self.auto_start,
            reconnect_delay_seconds: self.reconnect_delay_seconds,
            startup_grace_period_seconds: self.startup_grace_period_seconds,
        }
    }
}

impl Clone for ConnectionConfig {
    fn clone(&self) -> (res: Self)
        ensures
            res@ == self@,
    {
        ConnectionConfig {
            name: self.name.clone(),
            ssh_host: self.ssh_host.clone(),
            local_port: self.local_port,
            remote_host: self.remote_host.clone(),
            remote_port: self.remote_port,
            auto_start: self.auto_start,
            reconnect_delay_seconds: self.reconnect_delay_seconds,
            startup_grace_period_seconds: self.startup_grace_period_seconds,
        }
    }
}

/// The whole configuration file: its connections, in file order.
#[derive(Debug)]
pub struct ConfigFile {
    pub connections: Vec<ConnectionConfig>,
}

impl View for ConfigFile {
    type V = Seq<ConnectionConfigView>;

    open spec fn view(&self) -> Seq<ConnectionConfigView> {
        self.connections@.map_values(|c: ConnectionConfig| c@)
    }
}

/// Why a configuration is refused, or a configuration file cannot be used.
#[derive(Debug)]
pub enum ConfigError {
    NameRequired,
    SshHostRequired { name: String },
    RemoteHostRequired { name: String },
    LocalPortOutOfRange { name: String },
    RemotePortOutOfRange { name: String },
    DuplicateName { name: String },
    DuplicateLocalPort { port: u16 },
    AlreadyExists { path: String },
    FileMissing { path: String },
}

/// The mathematical value of a [`ConfigError`].
pub enum ConfigErrorView {
    NameRequired,
    SshHostRequired(Seq<char>),
    RemoteHostRequired(Seq<char>),
    LocalPortOutOfRange(Seq<char>),
    RemotePortOutOfRange(Seq<char>),
    DuplicateName(Seq<char>),
    DuplicateLocalPort(u16),
    AlreadyExists(Seq<char>),
    FileMissing(Seq<char>),
}

impl View for ConfigError {
    type V = ConfigErrorView;

    open spec fn view(&self) -> ConfigErrorView {
        match self {
            ConfigError::NameRequired => ConfigErrorView::NameRequired,
            ConfigError::SshHostRequired { name } => ConfigErrorView::SshHostRequired(name@),
            ConfigError::RemoteHostRequired { name } => ConfigErrorView::RemoteHostRequired(name@),
            ConfigError::LocalPortOutOfRange { name } => ConfigErrorView::LocalPortOutOfRange(
                name@,
            ),
            ConfigError::RemotePortOutOfRange { name } => ConfigErrorView::RemotePortOutOfRange(
                name@,
            ),
            ConfigError::DuplicateName { name } => ConfigErrorView::DuplicateName(name@),
            ConfigError::DuplicateLocalPort { port } => ConfigErrorView::DuplicateLocalPort(*port),
            ConfigError::AlreadyExists { path } => ConfigErrorView::AlreadyExists(path@),
            ConfigError::FileMissing { path } => ConfigErrorView::FileMissing(path@),
        }
    }
}

/// The text with which an error is reported.
pub open spec fn config_error_message(e: ConfigErrorView) -> Seq<char> {
    match e {
        ConfigErrorView::NameRequired => "connection name is required"@,
        ConfigErrorView::SshHostRequired(name) => "ssh_host is required for "@ + name,
        ConfigErrorView::RemoteHostRequired(name) => "remote_host is required for "@ + name,
        ConfigErrorView::LocalPortOutOfRange(name) => "local_port must be between 1 and 65535 for "@
            + name,
        ConfigErrorView::RemotePortOutOfRange(name) =>
            "remote_port must be between 1 and 65535 for "@ + name,
        ConfigErrorView::DuplicateName(name) => "duplicate connection name: "@ + name,
        ConfigErrorView::DuplicateLocalPort(port) => "duplicate local port: "@ + decimal(
            port as nat,
        ),
        ConfigErrorView::AlreadyExists(path) => "config already exists at "@ + path,
        ConfigErrorView::FileMissing(path) => "config file does not exist at "@ + path,
    }
}

fn prefixed(prefix: &str, rest: &String) -> (res: String)
    ensures
        res@ == prefix@ + rest@,
{
    let mut s = String::from_str(prefix);
    s.append(rest.as_str());
    s
}

impl ConfigError {
    /// The text with which this error is reported.
    pub fn message(&self) -> (res: String)
        ensures
            res@ == config_error_message(self@),
    {
        match self {
            ConfigError::NameRequired => String::from_str("connection name is required"),
            ConfigError::SshHostRequired { name } => prefixed("ssh_host is required for ", name),
            ConfigError::RemoteHostRequired { name } => prefixed(
                "remote_host is required for ",
                name,
            ),
            ConfigError::LocalPortOutOfRange { name } => prefixed(
                "local_port must be between 1 and 65535 for ",
                name,
            ),
            ConfigError::RemotePortOutOfRange { name } => prefixed(
                "remote_port must be between 1 and 65535 for ",
                name,
            ),
            ConfigError::DuplicateName { name } => prefixed("duplicate connection name: ", name),
            ConfigError::DuplicateLocalPort { port } => prefixed(
                "duplicate local port: ",
                &decimal_string(*port as u64),
            ),
            ConfigError::AlreadyExists { path } => prefixed("config already exists at ", path),
            ConfigError::FileMissing { path } => prefixed("config file does not exist at ", path),
        }
    }
}

/// The first rule that connection `c` breaks on its own, in the order in
/// which they are checked.
pub open spec fn connection_problem(c: ConnectionConfigView) -> Option<ConfigErrorView> {
    if is_blank(c.name) {
        Some(ConfigErrorView::NameRequired)
    } else if is_blank(c.ssh_host) {
        Some(ConfigErrorView::SshHostRequired(c.name))
    } else if is_blank(c.remote_host) {
        Some(ConfigErrorView::RemoteHostRequired(c.name))
    } else if c.local_port == 0 {
        Some(ConfigErrorView::LocalPortOutOfRange(c.name))
    } else if c.remote_port == 0 {
        Some(ConfigErrorView::RemotePortOutOfRange(c.name))
    } else {
        None
    }
}

/// The problem of entry `i` of `cs`: its own, else a name or a local port
/// that an earlier entry already has.
pub open spec fn entry_problem(cs: Seq<ConnectionConfigView>, i: int) -> Option<ConfigErrorView> {
    match connection_problem(cs[i]) {
        Some(p) => Some(p),
        None => if exists|j: int| 0 <= j < i && #[trigger] cs[j].name == cs[i].name {
            Some(ConfigErrorView::DuplicateName(cs[i].name))
        } else if exists|j: int| 0 <= j < i && #[trigger] cs[j].local_port == cs[i].local_port {
            Some(ConfigErrorView::DuplicateLocalPort(cs[i].local_port))
        } else {
            None
        },
    }
}

/// The first problem of the configuration, entries taken in file order.
pub open spec fn config_problem(cs: Seq<ConnectionConfigView>) -> Option<ConfigErrorView>
    decreases cs.len(),
{
    if cs.len() == 0 {
        None
    } else {
        match config_problem(cs.drop_last()) {
            Some(p) => Some(p),
            None => entry_problem(cs, cs.len() - 1),
        }
    }
}

/// A problem found in a prefix of the entries is the problem of them all.
pub proof fn lemma_config_problem_prefix(cs: Seq<ConnectionConfigView>, k: int)
    requires
        0 <= k <= cs.len(),
        config_problem(cs.take(k)) is Some,
    ensures
        config_problem(cs) == config_problem(cs.take(k)),
    decreases cs.len() - k,
{
    if k < cs.len() {
        let longer = cs.take(k + 1);
        assert(longer.drop_last() =~= cs.take(k));
        lemma_config_problem_prefix(cs, k + 1);
    } else {
        assert(cs.take(k) =~= cs);
    }
}

/// The outcome of a validation whose first problem is `problem`.
pub open spec fn validation_matches(res: Result<(), ConfigError>, problem: Option<ConfigErrorView>) -> bool {
    match res {
        Ok(_) => problem is None,
        Err(e) => problem == Some(e@),
    }
}

/// The startup grace period, in seconds, of a connection.
pub open spec fn grace_secs(c: ConnectionConfigView) -> u64 {
    match c.startup_grace_period_seconds {
        Some(s) => s,
        None => DEFAULT_STARTUP_GRACE_SECS,
    }
}

impl ConnectionConfig {
    /// Checks the rules that a connection must meet on its own.
    pub fn validate(&self) -> (res: Result<(), ConfigError>)
        ensures
            validation_matches(res, connection_problem(self@)),
    {
        if is_blank_str(self.name.as_str()) {
            return Err(ConfigError::NameRequired);
        }
        if is_blank_str(self.ssh_host.as_str()) {
            return Err(ConfigError::SshHostRequired { name: self.name.clone() });
        }
        if is_blank_str(self.remote_host.as_str()) {
            return Err(ConfigError::RemoteHostRequired { name: self.name.clone() });
        }
        if self.local_port == 0 {
            return Err(ConfigError::LocalPortOutOfRange { name: self.name.clone() });
        }
        if self.remote_port == 0 {
            return Err(ConfigError::RemotePortOutOfRange { name: self.name.clone() });
        }
        Ok(())
    }

    /// The startup grace period in seconds: the configured one, else 3.
    pub fn startup_grace_period_secs(&self) -> (res: u64)
        ensures
            res == grace_secs(self@),
    {
        match self.startup_grace_period_seconds {
            Some(s) => s,
            None => DEFAULT_STARTUP_GRACE_SECS,
        }
    }

    /// Whether two connections are configured identically.
    pub fn same_as(&self, other: &ConnectionConfig) -> (res: bool)
        ensures
            res == (self@ == other@),
    {
        let same_grace = match (self.startup_grace_period_seconds, other.startup_grace_period_seconds) {
            (Some(a), Some(b)) => a == b,
            (None, None) => true,
            _ => false,
        };
        self.name == other.name && self.ssh_host == other.ssh_host && self.local_port
            == other.local_port && self.remote_host == other.remote_host && self.remote_port
            == other.remote_port && self.auto_start == other.auto_start
            && self.reconnect_delay_seconds == other.reconnect_delay_seconds && same_grace
    }
}

fn names_contain(names: &Vec<String>, name: &String) -> (res: bool)
    ensures
        res == exists|j: int| 0 <= j < names.len() && #[trigger] names@[j]@ == name@,
{
    let mut i: usize = 0;
    while i < names.len()
        invariant
            0 <= i <= names.len(),
            forall|j: int| 0 <= j < i ==> #[trigger] names@[j]@ != name@,
        decreases names.len() - i,
    {
        if names[i] == *name {
            return true;
        }
        i = i + 1;
    }
    false
}

fn ports_contain(ports: &Vec<u16>, port: u16) -> (res: bool)
    ensures
        res == exists|j: int| 0 <= j < ports.len() && #[trigger] ports@[j] == port,
{
    let mut i: usize = 0;
    while i < ports.len()
        invariant
            0 <= i <= ports.len(),
            forall|j: int| 0 <= j < i ==> #[trigger] ports@[j] != port,
        decreases ports.len() - i,
    {
        if ports[i] == port {
            return true;
        }
        i = i + 1;
    }
    false
}

impl ConfigFile {
    /// Checks every connection in file order, and that no two share a name or
    /// a local port; reports the first problem found.
    pub fn validate(&self) -> (res: Result<(), ConfigError>)
        ensures
            validation_matches(res, config_problem(self@)),
    {
        let ghost cs = self@;
        let mut names: Vec<String> = Vec::new();
        let mut ports: Vec<u16> = Vec::new();
        let mut i: usize = 0;
        assert(cs.take(0) =~= Seq::<ConnectionConfigView>::empty());
        while i < self.connections.len()
            invariant
                cs == self@,
                cs.len() == self.connections.len(),
                0 <= i <= self.connections.len(),
                names.len() == i,
                ports.len() == i,
                forall|j: int| 0 <= j < i ==> #[trigger] names@[j]@ == cs[j].name,
                forall|j: int| 0 <= j < i ==> #[trigger] ports@[j] == cs[j].local_port,
                config_problem(cs.take(i as int)) is None,
            decreases self.connections.len() - i,
        {
            let connection = &self.connections[i];
            let ghost pre = cs.take(i as int + 1);
            proof {
                assert(pre.drop_last() =~= cs.take(i as int));
                assert(pre[i as int] == connection@);
                assert forall|j: int| 0 <= j < i implies #[trigger] pre[j] == cs[j] by {}
            }
            match connection.validate() {
                Err(e) => {
                    proof {
                        lemma_config_problem_prefix(cs, i as int + 1);
                    }
                    return Err(e);
                },
                Ok(()) => {},
            }
            if names_contain(&names, &connection.name) {
                proof {
                    let j = choose|j: int| 0 <= j < names.len() && #[trigger] names@[j]@
                        == connection.name@;
                    assert(pre[j].name == pre[i as int].name);
                    lemma_config_problem_prefix(cs, i as int + 1);
                }
                return Err(ConfigError::DuplicateName { name: connection.name.clone() });
            }
            if ports_contain(&ports, connection.local_port) {
                proof {
                    let j = choose|j: int| 0 <= j < ports.len() && #[trigger] ports@[j]
                        == connection.local_port;
                    assert(pre[j].local_port == pre[i as int].local_port);
                    assert forall|k: int| 0 <= k < i implies #[trigger] pre[k].name
                        != pre[i as int].name by {
                        assert(names@[k]@ == cs[k].name);
                    }
                    lemma_config_problem_prefix(cs, i as int + 1);
                }
                return Err(ConfigError::DuplicateLocalPort { port: connection.local_port });
            }
            proof {
                assert forall|k: int| 0 <= k < i implies #[trigger] pre[k].name
                    != pre[i as int].name by {
                    assert(names@[k]@ == cs[k].name);
                }
                assert forall|k: int| 0 <= k < i implies #[trigger] pre[k].local_port
                    != pre[i as int].local_port by {
                    assert(ports@[k] == cs[k].local_port);
                }
            }
            names.push(connection.name.clone());
            ports.push(connection.local_port);
            i = i + 1;
        }
        assert(cs.take(i as int) =~= cs);
        Ok(())
    }

    /// The configuration in use, given what reading the file gave: `None`
    /// when there is no file (no connections then), else the parsed file,
    /// which must pass validation.
    pub fn load(file: Option<ConfigFile>) -> (res: Result<ConfigFile, ConfigError>)
        ensures
            match file {
                None => res matches Ok(c) && c@.len() == 0,
                Some(f) => match res {
                    Ok(c) => config_problem(f@) is None && c@ == f@,
                    Err(e) => config_problem(f@) == Some(e@),
                },
            },
    {
        match file {
            None => Ok(ConfigFile { connections: Vec::new() }),
            Some(f) => match f.validate() {
                Ok(()) => Ok(f),
                Err(e) => Err(e),
            },
        }
    }
}

/// The contents of the sample configuration file.
pub open spec fn sample_config_text() -> Seq<char> {
    "[[connections]]\nname = \"example-postgres\"\nssh_host = \"prod-db\"\nlocal_port = 15432\nremote_host = \"127.0.0.1\"\nremote_port = 5432\nauto_start = true\nreconnect_delay_seconds = 10\n# startup_grace_period_seconds = 5  # Optional, defaults to 3\n"@
}

/// The sample configuration that `config init` writes.
pub fn sample_config() -> (res: String)
    ensures
        res@ == sample_config_text(),
{
    String::from_str(
        "[[connections]]\nname = \"example-postgres\"\nssh_host = \"prod-db\"\nlocal_port = 15432\nremote_host = \"127.0.0.1\"\nremote_port = 5432\nauto_start = true\nreconnect_delay_seconds = 10\n# startup_grace_period_seconds = 5  # Optional, defaults to 3\n",
    )
}

/// What `config init` writes at `path`: the sample configuration, unless a
/// file already exists there.
pub fn initialize_config(path: &str, exists: bool) -> (res: Result<String, ConfigError>)
    ensures
        exists ==> (res matches Err(e) && e@ == ConfigErrorView::AlreadyExists(path@)),
        !exists ==> (res matches Ok(s) && s@ == sample_config_text()),
{
    if exists {
        return Err(ConfigError::AlreadyExists { path: String::from_str(path) });
    }
    Ok(sample_config())
}

/// Checks the configuration file at `path`, given what reading it gave
/// (`None` when it does not exist): a missing file is an error, a present one
/// must pass validation.
pub fn validate_config_file(path: &str, file: Option<ConfigFile>) -> (res: Result<(), ConfigError>)
    ensures
        match file {
            None => res matches Err(e) && e@ == ConfigErrorView::FileMissing(path@),
            Some(f) => validation_matches(res, config_problem(f@)),
        },
{
    let present = file.is_some();
    let config = match ConfigFile::load(file) {
        Ok(c) => c,
        Err(e) => return Err(e),
    };
    if config.connections.len() == 0 && !present {
        return Err(ConfigError::FileMissing { path: String::from_str(path) });
    }
    Ok(())
}


/// No two entries share a name.
pub open spec fn unique_names(cs: Seq<ConnectionConfigView>) -> bool {
    forall|i: int, j: int| 0 <= i < j < cs.len() ==> #[trigger] cs[i].name != #[trigger] cs[j].name
}

/// No two entries share a local port.
pub open spec fn unique_local_ports(cs: Seq<ConnectionConfigView>) -> bool {
    forall|i: int, j: int|
        0 <= i < j < cs.len() ==> #[trigger] cs[i].local_port != #[trigger] cs[j].local_port
}

/// A configuration that passes validation has a non-blank name, SSH host and
/// remote host and non-zero ports on every entry, and no two entries share a
/// name or a local port.
pub proof fn lemma_valid_config_rules(cs: Seq<ConnectionConfigView>)
    requires
        config_problem(cs) is None,
    ensures
        forall|i: int| 0 <= i < cs.len() ==> connection_problem(#[trigger] cs[i]) is None,
        unique_names(cs),
        unique_local_ports(cs),
    decreases cs.len(),
{
    if cs.len() > 0 {
        let p = cs.drop_last();
        lemma_valid_config_rules(p);
        let last = cs.len() - 1;
        assert(entry_problem(cs, last) is None);
        assert forall|i: int| 0 <= i < cs.len() implies connection_problem(#[trigger] cs[i]) is None by {
            if i < last {
                assert(cs[i] == p[i]);
            }
        }
        assert forall|i: int, j: int| 0 <= i < j < cs.len() implies #[trigger] cs[i].name
            != #[trigger] cs[j].name by {
            if j < last {
                assert(cs[i] == p[i] && cs[j] == p[j]);
            } else {
                if cs[i].name == cs[last].name {
                    assert(exists|jj: int| 0 <= jj < last && #[trigger] cs[jj].name == cs[last].name);
                }
            }
        }
        assert forall|i: int, j: int| 0 <= i < j < cs.len() implies #[trigger] cs[i].local_port
            != #[trigger] cs[j].local_port by {
            if j < last {
                assert(cs[i] == p[i] && cs[j] == p[j]);
            } else {
                if cs[i].local_port == cs[last].local_port {
                    assert(exists|jj: int|
                        0 <= jj < last && #[trigger] cs[jj].local_port == cs[last].local_port);
                }
            }
        }
    }
}


/// Validation accepts every configuration that meets the rules: each entry
/// valid on its own, no name or local port twice.
pub proof fn lemma_rules_make_valid_config(cs: Seq<ConnectionConfigView>)
    requires
        forall|i: int| 0 <= i < cs.len() ==> connection_problem(#[trigger] cs[i]) is None,
        unique_names(cs),
        unique_local_ports(cs),
    ensures
        config_problem(cs) is None,
    decreases cs.len(),
{
    if cs.len() > 0 {
        let p = cs.drop_last();
        let last = cs.len() - 1;
        assert forall|i: int| 0 <= i < p.len() implies connection_problem(#[trigger] p[i]) is None by {
            assert(p[i] == cs[i]);
        }
        assert forall|i: int, j: int| 0 <= i < j < p.len() implies #[trigger] p[i].name
            != #[trigger] p[j].name by {
            assert(p[i] == cs[i] && p[j] == cs[j]);
        }
        assert forall|i: int, j: int| 0 <= i < j < p.len() implies #[trigger] p[i].local_port
            != #[trigger] p[j].local_port by {
            assert(p[i] == cs[i] && p[j] == cs[j]);
        }
        lemma_rules_make_valid_config(p);
        assert(connection_problem(cs[last]) is None);
        assert(!exists|j: int| 0 <= j < last && #[trigger] cs[j].name == cs[last].name);
        assert(!exists|j: int| 0 <= j < last && #[trigger] cs[j].local_port == cs[last].local_port);
    }
}

} // verus!
