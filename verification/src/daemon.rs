//! How the proxy turns itself into a daemon.
use vstd::prelude::*;
use vstd::string::*;

verus! {

/// The settings a daemon named `name` starts with.
pub struct DaemonPlan {
    /// Where standard output goes.
    pub stdout_path: String,
    /// Where standard error goes.
    pub stderr_path: String,
    /// Where the process id is written.
    pub pid_file: String,
    /// Whether the pid file is handed to the daemon's user and group.
    pub chown_pid_file: bool,
    /// The directory the daemon runs in.
    pub working_directory: String,
    /// The group id the daemon runs as.
    pub group: u32,
    /// The file mode mask.
    pub umask: u32,
}

/// `/tmp/<name><suffix>`
pub open spec fn tmp_path(name: Seq<char>, suffix: Seq<char>) -> Seq<char> {
    "/tmp/"@ + name + suffix
}

/// `/tmp/<name><suffix>`
fn make_tmp_path(name: &str, suffix: &str) -> (res: String)
    ensures
        res@ == tmp_path(name@, suffix@),
{
    let mut path = String::from_str("/tmp/");
    path.append(name);
    path.append(suffix);
    path
}

/// Works out how the process named `name` is to be daemonized: output and
/// errors to `/tmp/<name>.out` and `/tmp/<name>.err`, the pid in
/// `/tmp/<name>.pid` (handed over to the daemon), running in `/tmp` as
/// group 2 with mask 0o777.
pub fn set_daemon(name: &str) -> (plan: DaemonPlan)
    ensures
        plan.stdout_path@ == "/tmp/"@ + name@ + ".out"@,
        plan.stderr_path@ == "/tmp/"@ + name@ + ".err"@,
        plan.pid_file@ == "/tmp/"@ + name@ + ".pid"@,
        plan.stdout_path@.subrange(5, 5 + name@.len() as int) == name@,
        plan.stderr_path@.subrange(5, 5 + name@.len() as int) == name@,
        plan.pid_file@.subrange(5, 5 + name@.len() as int) == name@,
        plan.chown_pid_file,
        plan.working_directory@ == "/tmp"@,
        plan.group == 2,
        plan.umask == 0o777,
{
    proof {
        lemma_tmp_path_parts(name@, ".out"@);
        lemma_tmp_path_parts(name@, ".err"@);
        lemma_tmp_path_parts(name@, ".pid"@);
    }
    DaemonPlan {
        stdout_path: make_tmp_path(name, ".out"),
        stderr_path: make_tmp_path(name, ".err"),
        pid_file: make_tmp_path(name, ".pid"),
        chown_pid_file: true,
        working_directory: String::from_str("/tmp"),
        group: 2,
        umask: 0o777,
    }
}

/// A path under `/tmp` is `/tmp/`, then the whole name, then the suffix.
pub proof fn lemma_tmp_path_parts(name: Seq<char>, suffix: Seq<char>)
    ensures
        tmp_path(name, suffix).len() == 5 + name.len() as int + suffix.len(),
        tmp_path(name, suffix).take(5) == seq!['/', 't', 'm', 'p', '/'],
        tmp_path(name, suffix).subrange(5, 5 + name.len() as int) == name,
        tmp_path(name, suffix).skip(5 + name.len() as int) == suffix,
        tmp_path(name, suffix) == "/tmp/"@ + name + suffix,
{
    reveal_strlit("/tmp/");
    let t = tmp_path(name, suffix);
    assert(t.take(5) =~= seq!['/', 't', 'm', 'p', '/']);
    assert(t.subrange(5, 5 + name.len() as int) =~= name);
    assert(t.skip(5 + name.len() as int) =~= suffix);
}

} // verus!
