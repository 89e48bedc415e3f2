//! Remote SSH bootstrap: what is sent to the remote host and how its answers
//! are read. Running ssh itself is the caller's part.

use vstd::prelude::*;

use crate::client::error::ClientError;
use crate::text::{
    chars_of, find_char_in, join_path, path_join, has_prefix_at, index_of, line_ranges, lines, push_str, seq_eq, str_eq,
    string_of, string_of_range, strip_prefix, trim, trim_bounds,
};

verus! {

/// Where managed server installs live on the remote host.
pub const REMOTE_INSTALL_ROOT: &'static str = "~/.local/share/clux/server";

/// Scratch space for installs in progress.
pub const REMOTE_TMP_ROOT: &'static str = "~/.local/share/clux/server/.tmp";

/// Exit status of the bootstrap script when neither curl nor wget exists.
pub const DOWNLOAD_TOOL_MISSING_EXIT: i32 = 42;

/// Exit status of the bootstrap script for any other install failure.
pub const BOOTSTRAP_FAILED_EXIT: i32 = 43;

/// Exit status of the bootstrap script when the release artifact is missing.
pub const ARTIFACT_UNAVAILABLE_EXIT: i32 = 44;

/// The script that prints the remote OS and architecture.
pub const PROBE_SCRIPT: &'static str = "printf 'CLUX_PROBE_OS=%s\\n' \"$(uname -s)\"\nprintf 'CLUX_PROBE_ARCH=%s\\n' \"$(uname -m)\"\n";

/// The script that starts the managed server in the background.
pub const START_SERVER_SCRIPT: &'static str = "socket=\"$1\"\nserver_bin=\"$2\"\nmkdir -p \"$(dirname \"$socket\")\" &&\n(nohup \"$server_bin\" --socket \"$socket\" </dev/null >/dev/null 2>&1 &)\n";

/// The script that waits up to five seconds for the server socket.
pub const WAIT_SOCKET_SCRIPT: &'static str = "socket=\"$1\"\ni=0\nwhile [ \"$i\" -lt 50 ]; do\n  if [ -S \"$socket\" ]; then\n    exit 0\n  fi\n  /bin/sleep 0.1\n  i=$((i + 1))\ndone\necho \"remote socket did not appear: $socket\" >&2\nexit 1\n";

/// The script that installs (or reuses) the managed server binary; its
/// arguments are the artifact URL, the version and the target triple.
pub const BOOTSTRAP_SCRIPT: &'static str = "url=\"$1\"\nversion=\"$2\"\ntarget=\"$3\"\ninstall_root=\"$HOME/.local/share/clux/server\"\nversion_dir=\"$install_root/$version\"\nbinary_path=\"$version_dir/clux-server\"\ntemp_root=\"$install_root/.tmp\"\nif [ -x \"$binary_path\" ]; then\n  printf 'REUSED\\t%s\\n' \"$binary_path\"\n  exit 0\nfi\nfor tool in tar chmod mkdir mv rm dirname; do\n  command -v \"$tool\" >/dev/null 2>&1 || { echo \"missing required remote tool: $tool\" >&2; exit 43; }\ndone\ndownloader=\"\"\nif command -v curl >/dev/null 2>&1; then\n  downloader=\"curl\"\nelif command -v wget >/dev/null 2>&1; then\n  downloader=\"wget\"\nelse\n  echo \"neither curl nor wget is available on the remote host\" >&2\n  exit 42\nfi\nmkdir -p \"$temp_root\"\ntmp_dir=\"$temp_root/install-$version-$target-$$\"\narchive=\"$tmp_dir/archive.tar.gz\"\nextract_dir=\"$tmp_dir/extract\"\nstaging_dir=\"$tmp_dir/version\"\nrm -rf \"$tmp_dir\"\nmkdir -p \"$extract_dir\"\nif [ \"$downloader\" = \"curl\" ]; then\n  curl -fsSL -o \"$archive\" \"$url\" || { echo \"failed to download artifact: $url\" >&2; exit 44; }\nelse\n  wget -q -O \"$archive\" \"$url\" || { echo \"failed to download artifact: $url\" >&2; exit 44; }\nfi\ntar -xzf \"$archive\" -C \"$extract_dir\" || { echo \"failed to extract artifact\" >&2; exit 43; }\ntest -f \"$extract_dir/clux-server\" || { echo \"artifact missing clux-server binary\" >&2; exit 43; }\nmkdir -p \"$staging_dir\"\nmv \"$extract_dir/clux-server\" \"$staging_dir/clux-server\" || { echo \"failed to stage clux-server\" >&2; exit 43; }\nchmod +x \"$staging_dir/clux-server\" || { echo \"failed to chmod clux-server\" >&2; exit 43; }\nprintf 'version=%s\\ntarget=%s\\nurl=%s\\n' \"$version\" \"$target\" \"$url\" > \"$staging_dir/INSTALL_META\"\nif [ -e \"$version_dir\" ] && [ ! -x \"$binary_path\" ]; then\n  echo \"existing remote install is incomplete: $version_dir\" >&2\n  exit 43\nfi\nif [ ! -e \"$version_dir\" ]; then\n  mv \"$staging_dir\" \"$version_dir\" 2>/dev/null || true\nfi\nrm -rf \"$tmp_dir\"\ntest -x \"$binary_path\" || { echo \"managed remote binary missing after install\" >&2; exit 43; }\nprintf 'INSTALLED\\t%s\\n' \"$binary_path\"\n";

/// A normalized remote platform that can be matched to a release artifact.
#[derive(Debug, Clone, PartialEq, Eq)]
pub struct RemotePlatform {
    pub os: String,
    pub arch: String,
    pub target_triple: String,
}

/// Managed installation paths used for remote bootstrapping.
#[derive(Debug, Clone, PartialEq, Eq)]
pub struct RemoteInstallPaths {
    pub install_root: String,
    pub version_dir: String,
    pub binary_path: String,
    pub temp_root: String,
}

/// Result of resolving or installing a remote server.
#[derive(Debug, Clone, PartialEq, Eq)]
pub struct BootstrapResult {
    pub platform: RemotePlatform,
    pub binary_path: String,
    pub installed: bool,
}

/// The release target of a remote OS and architecture, if one is published.
pub open spec fn target_for(os: Seq<char>, arch: Seq<char>) -> Option<Seq<char>> {
    if os == "Linux"@ && (arch == "x86_64"@ || arch == "amd64"@) {
        Some("x86_64-unknown-linux-gnu"@)
    } else if os == "Linux"@ && (arch == "aarch64"@ || arch == "arm64"@) {
        Some("aarch64-unknown-linux-gnu"@)
    } else {
        None
    }
}

/// Match a remote OS and architecture to a release target.
pub fn normalize_remote_platform(os: &str, arch: &str) -> (r: Result<RemotePlatform, ClientError>)
    ensures
        target_for(os@, arch@) matches Some(t) ==> (r matches Ok(p) && p.os@ == os@ && p.arch@ == arch@
            && p.target_triple@ == t),
        target_for(os@, arch@) is None ==> (r matches Err(ClientError::RemotePlatformUnsupported { os: o, arch: a })
            && o@ == os@ && a@ == arch@),
{
    let linux = str_eq(os, "Linux");
    let target = if linux && (str_eq(arch, "x86_64") || str_eq(arch, "amd64")) {
        "x86_64-unknown-linux-gnu"
    } else if linux && (str_eq(arch, "aarch64") || str_eq(arch, "arm64")) {
        "aarch64-unknown-linux-gnu"
    } else {
        return Err(ClientError::RemotePlatformUnsupported { os: String::from_str(os), arch: String::from_str(arch) });
    };
    Ok(RemotePlatform {
        os: String::from_str(os),
        arch: String::from_str(arch),
        target_triple: String::from_str(target),
    })
}

/// The first line whose trimmed text starts with `prefix`, less the prefix.
pub open spec fn find_prefixed(ls: Seq<Seq<char>>, prefix: Seq<char>) -> Option<Seq<char>>
    decreases ls.len(),
{
    if ls.len() == 0 {
        None
    } else {
        match strip_prefix(trim(ls[0]), prefix) {
            Some(rest) => Some(rest),
            None => find_prefixed(ls.drop_first(), prefix),
        }
    }
}

/// The value of a probe field: the rest of the first line carrying its
/// prefix, trimmed, if that is not empty.
pub open spec fn probe_value(out: Seq<char>, prefix: Seq<char>) -> Option<Seq<char>> {
    match find_prefixed(lines(out), prefix) {
        Some(rest) => if trim(rest).len() > 0 {
            Some(trim(rest))
        } else {
            None
        },
        None => None,
    }
}

/// The value of the probe field with `prefix` in the probe's output.
fn probe_field(out: &Vec<char>, prefix: &str) -> (r: Option<String>)
    ensures
        r is None <==> probe_value(out@, prefix@) is None,
        r matches Some(v) ==> v@ == probe_value(out@, prefix@)->0,
{
    let ranges = line_ranges(out);
    let ghost ls = lines(out@);
    let plen = prefix.unicode_len();
    let mut i: usize = 0;
    assert(ls.skip(0) =~= ls);
    while i < ranges.len()
        invariant
            i <= ranges@.len(),
            ranges@.len() == ls.len(),
            ls == lines(out@),
            plen == prefix@.len(),
            forall|k: int| 0 <= k < ranges@.len() ==> #[trigger] ranges@[k].0 <= ranges@[k].1 <= out@.len()
                && out@.subrange(ranges@[k].0 as int, ranges@[k].1 as int) == ls[k],
            find_prefixed(ls, prefix@) == find_prefixed(ls.skip(i as int), prefix@),
        decreases ranges@.len() - i,
    {
        let (lo, hi) = ranges[i];
        let (b, e) = trim_bounds(out, lo, hi);
        proof {
            assert(ls.skip(i as int)[0] == ls[i as int]);
            assert(ls.skip(i as int).drop_first() =~= ls.skip(i + 1));
        }
        if has_prefix_at(out, b, e, prefix) {
            let (vb, ve) = trim_bounds(out, b + plen, e);
            proof {
                let t = out@.subrange(b as int, e as int);
                assert(t.skip(plen as int) =~= out@.subrange(b + plen, e as int));
            }
            if vb < ve {
                return Some(string_of_range(out, vb, ve));
            } else {
                return None;
            }
        }
        i = i + 1;
    }
    assert(ls.skip(i as int) =~= Seq::<Seq<char>>::empty());
    None
}

/// Read the platform probe's output: the values of `CLUX_PROBE_OS=` and
/// `CLUX_PROBE_ARCH=` lines, matched to a release target.
pub fn parse_remote_platform_probe(stdout: &str) -> (r: Result<RemotePlatform, ClientError>)
    ensures
        probe_outcome(stdout@, r),
{
    let out = chars_of(stdout);
    let os = match probe_field(&out, "CLUX_PROBE_OS=") {
        Some(v) => v,
        None => return Err(ClientError::RemoteBootstrapFailed(String::from_str("remote platform probe returned no OS"))),
    };
    let arch = match probe_field(&out, "CLUX_PROBE_ARCH=") {
        Some(v) => v,
        None => return Err(ClientError::RemoteBootstrapFailed(String::from_str("remote platform probe returned no arch"))),
    };
    normalize_remote_platform(os.as_str(), arch.as_str())
}

/// `r` is what reading the probe output `out` gives: an error naming the
/// missing field, or the platform of the two values.
pub open spec fn probe_outcome(out: Seq<char>, r: Result<RemotePlatform, ClientError>) -> bool {
    match probe_value(out, "CLUX_PROBE_OS="@) {
        None => r matches Err(ClientError::RemoteBootstrapFailed(m)) && m@ == "remote platform probe returned no OS"@,
        Some(os) => match probe_value(out, "CLUX_PROBE_ARCH="@) {
            None => r matches Err(ClientError::RemoteBootstrapFailed(m)) && m@
                == "remote platform probe returned no arch"@,
            Some(arch) => platform_result(r, os, arch),
        },
    }
}

/// `r` is what matching `os` and `arch` to a release target gives.
pub open spec fn platform_result(r: Result<RemotePlatform, ClientError>, os: Seq<char>, arch: Seq<char>) -> bool {
    &&& target_for(os, arch) matches Some(t) ==> (r matches Ok(p) && p.os@ == os && p.arch@ == arch
        && p.target_triple@ == t)
    &&& target_for(os, arch) is None ==> (r matches Err(ClientError::RemotePlatformUnsupported { os: o, arch: a })
        && o@ == os && a@ == arch)
}

/// `s` with every trailing copy of `p` removed.
pub open spec fn strip_suffixes(s: Seq<char>, p: Seq<char>) -> Seq<char>
    decreases s.len(),
{
    if p.len() > 0 && p.len() <= s.len() && s.skip(s.len() - p.len()) == p {
        strip_suffixes(s.take(s.len() - p.len()), p)
    } else {
        s
    }
}

/// The owner and name of a GitHub repository URL: after trimming white space,
/// trailing slashes and trailing `.git`, the URL must be
/// `https://github.com/<owner>/<name>` with both parts non-empty and no more
/// parts, and the owner must not be the `yourusername` placeholder.
pub open spec fn github_repo(repo: Seq<char>) -> Option<(Seq<char>, Seq<char>)> {
    let t = strip_suffixes(strip_suffixes(trim(repo), "/"@), ".git"@);
    match strip_prefix(t, "https://github.com/"@) {
        None => None,
        Some(path) => {
            let i = index_of(path, '/');
            let owner = path.take(i);
            let rest = if i < path.len() { path.skip(i + 1) } else { Seq::empty() };
            if i < path.len() && index_of(rest, '/') == rest.len() && owner.len() > 0 && rest.len() > 0
                && owner != "yourusername"@ {
                Some((owner, rest))
            } else {
                None
            }
        },
    }
}

/// Remove every trailing copy of `p` from `s[lo..hi]`; returns the new end.
fn strip_suffixes_at(s: &Vec<char>, lo: usize, hi: usize, p: &str) -> (e: usize)
    requires
        lo <= hi <= s@.len(),
    ensures
        lo <= e <= hi,
        strip_suffixes(s@.subrange(lo as int, hi as int), p@) == s@.subrange(lo as int, e as int),
{
    let pv = chars_of(p);
    let n = pv.len();
    let mut e = hi;
    if n == 0 {
        return e;
    }
    loop
        invariant
            lo <= e <= hi,
            hi <= s@.len(),
            n == pv@.len(),
            pv@ == p@,
            n > 0,
            strip_suffixes(s@.subrange(lo as int, hi as int), p@) == strip_suffixes(s@.subrange(lo as int, e as int), p@),
        decreases e,
    {
        if n > e - lo {
            return e;
        }
        let mut k: usize = 0;
        let mut same = true;
        while k < n
            invariant
                k <= n,
                n <= e - lo,
                e <= s@.len(),
                n == pv@.len(),
                same == (forall|m: int| 0 <= m < k ==> s@[e - n + m] == pv@[m]),
            decreases n - k,
        {
            if s[e - n + k] != pv[k] {
                same = false;
            }
            k = k + 1;
        }
        let ghost t = s@.subrange(lo as int, e as int);
        if !same {
            proof {
                assert(!(t.skip(t.len() - n) =~= p@)) by {
                    let m = choose|m: int| 0 <= m < n && s@[e - n + m] != pv@[m];
                    assert(t.skip(t.len() - n)[m] == s@[e - n + m]);
                }
            }
            return e;
        }
        proof {
            assert(t.skip(t.len() - n) =~= p@);
            assert(t.take(t.len() - n) =~= s@.subrange(lo as int, e - n));
        }
        e = e - n;
    }
}

/// Read a GitHub repository URL into its owner and name.
pub fn parse_github_repository(repo: &str) -> (r: Result<(String, String), ClientError>)
    ensures
        github_repo(repo@) matches Some(p) ==> (r matches Ok(v) && v.0@ == p.0 && v.1@ == p.1),
        github_repo(repo@) is None ==> (r matches Err(ClientError::InvalidRepositoryMetadata(m)) && m@ == repo@),
{
    let s = chars_of(repo);
    let (b, e0) = trim_bounds(&s, 0, s.len());
    assert(s@.subrange(0, s@.len() as int) =~= s@);
    let e1 = strip_suffixes_at(&s, b, e0, "/");
    let e = strip_suffixes_at(&s, b, e1, ".git");
    let ghost t = s@.subrange(b as int, e as int);
    let invalid = ClientError::InvalidRepositoryMetadata(String::from_str(repo));
    if !has_prefix_at(&s, b, e, "https://github.com/") {
        return Err(invalid);
    }
    let plen = "https://github.com/".unicode_len();
    let start = b + plen;
    proof {
        assert(t.skip(plen as int) =~= s@.subrange(start as int, e as int));
    }
    let slash = find_char_in(&s, start, e, '/');
    let ghost path = s@.subrange(start as int, e as int);
    if slash >= e {
        return Err(invalid);
    }
    let slash2 = find_char_in(&s, slash + 1, e, '/');
    proof {
        assert(path.skip(slash - start + 1) =~= s@.subrange(slash + 1, e as int));
        assert(path.take(slash - start) =~= s@.subrange(start as int, slash as int));
    }
    let owner: Vec<char> = copy_chars(&s, start, slash);
    let name: Vec<char> = copy_chars(&s, slash + 1, e);
    let placeholder = chars_of("yourusername");
    if slash2 < e || owner.len() == 0 || name.len() == 0 || seq_eq(&owner, &placeholder) {
        return Err(invalid);
    }
    Ok((string_of(owner.as_slice()), string_of(name.as_slice())))
}

/// A copy of `s[lo..hi]`.
fn copy_chars(s: &Vec<char>, lo: usize, hi: usize) -> (v: Vec<char>)
    requires
        lo <= hi <= s@.len(),
    ensures
        v@ == s@.subrange(lo as int, hi as int),
{
    let mut v: Vec<char> = Vec::new();
    let mut i = lo;
    while i < hi
        invariant
            lo <= i <= hi,
            hi <= s@.len(),
            v@ == s@.subrange(lo as int, i as int),
        decreases hi - i,
    {
        v.push(s[i]);
        i = i + 1;
        assert(v@ =~= s@.subrange(lo as int, i as int));
    }
    v
}

/// The URL of the release artifact of `version` for `target` in repository
/// `owner/name`.
pub open spec fn release_url(owner: Seq<char>, name: Seq<char>, version: Seq<char>, target: Seq<char>) -> Seq<char> {
    "https://github.com/"@ + owner + "/"@ + name + "/releases/download/v"@ + version + "/clux-server-v"@ + version
        + "-"@ + target + ".tar.gz"@
}

/// Resolve the GitHub release URL of a versioned artifact.
pub fn resolve_release_url_with_repo(repo: &str, version: &str, target: &str) -> (r: Result<String, ClientError>)
    ensures
        github_repo(repo@) matches Some(p) ==> (r matches Ok(u) && u@ == release_url(p.0, p.1, version@, target@)),
        github_repo(repo@) is None ==> (r matches Err(ClientError::InvalidRepositoryMetadata(m)) && m@ == repo@),
{
    let (owner, name) = match parse_github_repository(repo) {
        Ok(p) => p,
        Err(e) => return Err(e),
    };
    let mut u = String::new();
    push_str(&mut u, "https://github.com/");
    push_str(&mut u, owner.as_str());
    push_str(&mut u, "/");
    push_str(&mut u, name.as_str());
    push_str(&mut u, "/releases/download/v");
    push_str(&mut u, version);
    push_str(&mut u, "/clux-server-v");
    push_str(&mut u, version);
    push_str(&mut u, "-");
    push_str(&mut u, target);
    push_str(&mut u, ".tar.gz");
    assert(u@ =~= release_url(owner@, name@, version@, target@));
    Ok(u)
}

/// The managed install paths for a version.
pub fn compute_remote_install_paths(version: &str) -> (p: RemoteInstallPaths)
    ensures
        p.install_root@ == REMOTE_INSTALL_ROOT@,
        p.version_dir@ == path_join(REMOTE_INSTALL_ROOT@, version@),
        p.binary_path@ == path_join(path_join(REMOTE_INSTALL_ROOT@, version@), "clux-server"@),
        p.temp_root@ == REMOTE_TMP_ROOT@,
{
    let install_root = String::from_str(REMOTE_INSTALL_ROOT);
    let version_dir = join_path(REMOTE_INSTALL_ROOT, version);
    let binary_path = join_path(version_dir.as_str(), "clux-server");
    let temp_root = String::from_str(REMOTE_TMP_ROOT);
    RemoteInstallPaths { install_root, version_dir, binary_path, temp_root }
}

/// The script that installs or reuses the managed server binary.
pub fn remote_bootstrap_script() -> (s: &'static str)
    ensures
        s@ == BOOTSTRAP_SCRIPT@,
{
    BOOTSTRAP_SCRIPT
}

/// The ssh arguments of a tunnel forwarding a local Unix socket to a remote
/// one, failing if the forward cannot be set up and replacing a stale socket.
pub fn tunnel_ssh_args(destination: &str, local_socket: &str, remote_socket: &str) -> (v: Vec<String>)
    ensures
        v@.len() == 8,
        v@[0]@ == "-o"@,
        v@[1]@ == "ExitOnForwardFailure=yes"@,
        v@[2]@ == "-o"@,
        v@[3]@ == "StreamLocalBindUnlink=yes"@,
        v@[4]@ == destination@,
        v@[5]@ == "-N"@,
        v@[6]@ == "-L"@,
        v@[7]@ == local_socket@ + ":"@ + remote_socket@,
{
    let mut forward = String::new();
    push_str(&mut forward, local_socket);
    push_str(&mut forward, ":");
    push_str(&mut forward, remote_socket);
    let mut v: Vec<String> = Vec::new();
    v.push(String::from_str("-o"));
    v.push(String::from_str("ExitOnForwardFailure=yes"));
    v.push(String::from_str("-o"));
    v.push(String::from_str("StreamLocalBindUnlink=yes"));
    v.push(String::from_str(destination));
    v.push(String::from_str("-N"));
    v.push(String::from_str("-L"));
    v.push(forward);
    v
}

/// The ssh arguments that run a shell script on the remote host, the script
/// going in on standard input, with `args` as its positional arguments.
pub fn remote_shell_args(destination: &str, args: &[String]) -> (v: Vec<String>)
    ensures
        v@.len() == 4 + args@.len(),
        v@[0]@ == destination@,
        v@[1]@ == "sh"@,
        v@[2]@ == "-s"@,
        v@[3]@ == "--"@,
        forall|i: int| 0 <= i < args@.len() ==> #[trigger] v@[4 + i]@ == args@[i]@,
{
    let mut v: Vec<String> = Vec::new();
    v.push(String::from_str(destination));
    v.push(String::from_str("sh"));
    v.push(String::from_str("-s"));
    v.push(String::from_str("--"));
    let mut i: usize = 0;
    while i < args.len()
        invariant
            i <= args@.len(),
            v@.len() == 4 + i,
            v@[0]@ == destination@,
            v@[1]@ == "sh"@,
            v@[2]@ == "-s"@,
            v@[3]@ == "--"@,
            forall|k: int| 0 <= k < i ==> #[trigger] v@[4 + k]@ == args@[k]@,
        decreases args@.len() - i,
    {
        v.push(args[i].clone());
        i = i + 1;
    }
    v
}

/// The command ssh runs for the stdio bridge: the managed server in bridge
/// mode on the remote socket.
pub fn stdio_bridge_command(server_path: &str, remote_socket: &str) -> (s: String)
    ensures
        s@ == "exec \""@ + server_path@ + "\" --stdio-bridge \""@ + remote_socket@ + "\""@,
{
    let mut s = String::new();
    push_str(&mut s, "exec \"");
    push_str(&mut s, server_path);
    push_str(&mut s, "\" --stdio-bridge \"");
    push_str(&mut s, remote_socket);
    push_str(&mut s, "\"");
    s
}

/// The trimmed text of `s`.
fn trimmed(s: &str) -> (r: String)
    ensures
        r@ == trim(s@),
{
    let v = chars_of(s);
    let (b, e) = trim_bounds(&v, 0, v.len());
    assert(v@.subrange(0, v@.len() as int) =~= v@);
    string_of_range(&v, b, e)
}

/// Why ssh stopped: its exit status, and its error output when there is any.
pub open spec fn exit_details(status: Seq<char>, stderr: Seq<char>) -> Seq<char> {
    if trim(stderr).len() == 0 {
        "ssh exited with status "@ + status
    } else {
        "ssh exited with status "@ + status + ": "@ + trim(stderr)
    }
}

/// Why ssh stopped: its exit status, and its error output when there is any.
pub fn tunnel_exit_details(status: &str, stderr: &str) -> (s: String)
    ensures
        s@ == exit_details(status@, stderr@),
{
    let err = trimmed(stderr);
    let mut s = String::new();
    push_str(&mut s, "ssh exited with status ");
    push_str(&mut s, status);
    if err.unicode_len() > 0 {
        push_str(&mut s, ": ");
        push_str(&mut s, err.as_str());
    }
    s
}

/// Read the platform probe's result: a failed probe reports the trimmed error
/// output, else the trimmed output, else the exit status.
pub fn interpret_probe_output(success: bool, status: &str, stdout: &str, stderr: &str) -> (r: Result<
    RemotePlatform,
    ClientError,
>)
    ensures
        !success ==> (r matches Err(ClientError::RemoteBootstrapFailed(m)) && m@ == "remote platform probe failed: "@
            + if trim(stderr@).len() > 0 {
            trim(stderr@)
        } else if trim(stdout@).len() > 0 {
            trim(stdout@)
        } else {
            "ssh exited with status "@ + status@
        }),
        success ==> probe_outcome(stdout@, r),
{
    if !success {
        let err = trimmed(stderr);
        let out = trimmed(stdout);
        let mut m = String::new();
        push_str(&mut m, "remote platform probe failed: ");
        if err.unicode_len() > 0 {
            push_str(&mut m, err.as_str());
        } else if out.unicode_len() > 0 {
            push_str(&mut m, out.as_str());
        } else {
            push_str(&mut m, "ssh exited with status ");
            push_str(&mut m, status);
        }
        return Err(ClientError::RemoteBootstrapFailed(m));
    }
    parse_remote_platform_probe(stdout)
}

/// The first line that is not blank.
pub open spec fn first_nonblank(ls: Seq<Seq<char>>) -> Option<Seq<char>>
    decreases ls.len(),
{
    if ls.len() == 0 {
        None
    } else if trim(ls[0]).len() > 0 {
        Some(ls[0])
    } else {
        first_nonblank(ls.drop_first())
    }
}

/// What a finished bootstrap script's exit code and output mean: on success
/// the first non-blank line is `INSTALLED` or `REUSED`, a tab and the binary
/// path; the download-tool and artifact exit codes have errors of their own;
/// any other outcome reports the trimmed error output.
pub open spec fn bootstrap_outcome(
    code: Option<i32>,
    stdout: Seq<char>,
    stderr: Seq<char>,
    platform: RemotePlatform,
    version: Seq<char>,
    url: Seq<char>,
    r: Result<BootstrapResult, ClientError>,
) -> bool {
    if code == Some(0i32) {
        match first_nonblank(lines(stdout)) {
            None => r matches Err(ClientError::RemoteBootstrapFailed(m)) && m@
                == "bootstrap succeeded but returned no managed binary path"@,
            Some(line) => {
                let t = index_of(line, '\t');
                if t == line.len() {
                    r matches Err(ClientError::RemoteBootstrapFailed(m)) && m@ == "unexpected bootstrap output: "@
                        + trim(line)
                } else {
                    let state = line.take(t);
                    let path = line.skip(t + 1);
                    if state == "INSTALLED"@ || state == "REUSED"@ {
                        r matches Ok(b) && b.platform == platform && b.binary_path@ == trim(path) && b.installed
                            == (state == "INSTALLED"@)
                    } else {
                        r matches Err(ClientError::RemoteBootstrapFailed(m)) && m@ == "unexpected bootstrap state: "@
                            + state
                    }
                }
            },
        }
    } else if code == Some(DOWNLOAD_TOOL_MISSING_EXIT) {
        r == Err::<BootstrapResult, ClientError>(ClientError::RemoteMissingDownloadTool)
    } else if code == Some(ARTIFACT_UNAVAILABLE_EXIT) {
        r matches Err(ClientError::RemoteArtifactUnavailable { version: v, target: t, url: u }) && v@ == version
            && t@ == platform.target_triple@ && u@ == url
    } else {
        r matches Err(ClientError::RemoteBootstrapFailed(m)) && m@ == if trim(stderr).len() == 0 {
            "remote bootstrap failed"@
        } else {
            trim(stderr)
        }
    }
}

/// Read a finished bootstrap script's exit code and output.
pub fn interpret_bootstrap_output(
    code: Option<i32>,
    stdout: &str,
    stderr: &str,
    platform: RemotePlatform,
    version: &str,
    release_url: &str,
) -> (r: Result<BootstrapResult, ClientError>)
    ensures
        bootstrap_outcome(code, stdout@, stderr@, platform, version@, release_url@, r),
{
    match code {
        Some(0) => {
            let out = chars_of(stdout);
            let ranges = line_ranges(&out);
            let ghost ls = lines(out@);
            let mut i: usize = 0;
            assert(ls.skip(0) =~= ls);
            while i < ranges.len()
                invariant
                    i <= ranges@.len(),
                    ranges@.len() == ls.len(),
                    ls == lines(out@),
                    out@ == stdout@,
                    code == Some(0i32),
                    forall|k: int| 0 <= k < ranges@.len() ==> #[trigger] ranges@[k].0 <= ranges@[k].1 <= out@.len()
                        && out@.subrange(ranges@[k].0 as int, ranges@[k].1 as int) == ls[k],
                    first_nonblank(ls) == first_nonblank(ls.skip(i as int)),
                decreases ranges@.len() - i,
            {
                let (lo, hi) = ranges[i];
                let (b, e) = trim_bounds(&out, lo, hi);
                proof {
                    assert(ls.skip(i as int)[0] == ls[i as int]);
                    assert(ls.skip(i as int).drop_first() =~= ls.skip(i + 1));
                }
                if b < e {
                    let ghost line = ls[i as int];
                    proof {
                        assert(trim(line).len() > 0);
                        assert(first_nonblank(ls.skip(i as int)) == Some(line));
                    }
                    let tab = find_char_in(&out, lo, hi, '\t');
                    proof {
                        assert(line == out@.subrange(lo as int, hi as int));
                        assert(first_nonblank(lines(stdout@)) == Some(line));
                    }
                    if tab >= hi {
                        assert(index_of(line, '\t') == line.len());
                        let (tb, te) = trim_bounds(&out, lo, hi);
                        let mut m = String::new();
                        push_str(&mut m, "unexpected bootstrap output: ");
                        let t = string_of_range(&out, tb, te);
                        push_str(&mut m, t.as_str());
                        assert(m@ =~= "unexpected bootstrap output: "@ + trim(line));
                        return Err(ClientError::RemoteBootstrapFailed(m));
                    }
                    let state = copy_chars(&out, lo, tab);
                    proof {
                        assert(line.take(tab - lo) =~= out@.subrange(lo as int, tab as int));
                        assert(line.skip(tab - lo + 1) =~= out@.subrange(tab + 1, hi as int));
                    }
                    let installed_word = chars_of("INSTALLED");
                    let reused_word = chars_of("REUSED");
                    let installed = if seq_eq(&state, &installed_word) {
                        true
                    } else if seq_eq(&state, &reused_word) {
                        false
                    } else {
                        let mut m = String::new();
                        push_str(&mut m, "unexpected bootstrap state: ");
                        let st = string_of(state.as_slice());
                        push_str(&mut m, st.as_str());
                        assert(index_of(line, '\t') == tab - lo);
                        assert(state@ == line.take(tab - lo));
                        assert(!(state@ == "INSTALLED"@) && !(state@ == "REUSED"@));
                        assert(m@ =~= "unexpected bootstrap state: "@ + line.take(index_of(line, '\t')));
                        return Err(ClientError::RemoteBootstrapFailed(m));
                    };
                    let (pb, pe) = trim_bounds(&out, tab + 1, hi);
                    let binary_path = string_of_range(&out, pb, pe);
                    return Ok(BootstrapResult { platform, binary_path, installed });
                }
                i = i + 1;
            }
            assert(ls.skip(i as int) =~= Seq::<Seq<char>>::empty());
            Err(
                ClientError::RemoteBootstrapFailed(
                    String::from_str("bootstrap succeeded but returned no managed binary path"),
                ),
            )
        },
        Some(42) => Err(ClientError::RemoteMissingDownloadTool),
        Some(44) => Err(
            ClientError::RemoteArtifactUnavailable {
                version: String::from_str(version),
                target: platform.target_triple,
                url: String::from_str(release_url),
            },
        ),
        _ => {
            let err = trimmed(stderr);
            let details = if err.unicode_len() == 0 {
                String::from_str("remote bootstrap failed")
            } else {
                err
            };
            Err(ClientError::RemoteBootstrapFailed(details))
        },
    }
}

/// Read the result of starting the remote server.
pub fn interpret_start_output(success: bool, status: &str, stderr: &str) -> (r: Result<(), ClientError>)
    ensures
        success ==> r is Ok,
        !success ==> (r matches Err(ClientError::RemoteStartupFailed(m)) && m@ == exit_details(status@, stderr@)),
{
    if success {
        Ok(())
    } else {
        Err(ClientError::RemoteStartupFailed(tunnel_exit_details(status, stderr)))
    }
}

/// Read the result of waiting for the remote socket.
pub fn interpret_wait_output(success: bool, socket_path: &str, stderr: &str) -> (r: Result<(), ClientError>)
    ensures
        success ==> r is Ok,
        !success ==> (r matches Err(ClientError::RemoteStartupFailed(m)) && m@ == if trim(stderr@).len() == 0 {
            "remote socket "@ + socket_path@ + " did not become ready within 5s"@
        } else {
            trim(stderr@)
        }),
{
    if success {
        return Ok(());
    }
    let err = trimmed(stderr);
    let details = if err.unicode_len() == 0 {
        let mut m = String::new();
        push_str(&mut m, "remote socket ");
        push_str(&mut m, socket_path);
        push_str(&mut m, " did not become ready within 5s");
        m
    } else {
        err
    };
    Err(ClientError::RemoteStartupFailed(details))
}

/// The name of the small helper that bridges the remote socket to stdio,
/// for servers without a bridge of their own.
pub const REMOTE_STDIO_BRIDGE_NAME: &'static str = "clux-stdio-bridge";

/// The script that installs the stdio bridge helper for a version (its first
/// argument) in the managed install directory.
pub const STDIO_BRIDGE_INSTALL_SCRIPT: &'static str = "version=\"$1\"\nbridge_path=\"$HOME/.local/share/clux/server/$version/clux-stdio-bridge\"\nmkdir -p \"$(dirname \"$bridge_path\")\" || exit 43\ncat > \"$bridge_path\" <<'PY'\n#!/usr/bin/env python3\nimport os\nimport selectors\nimport socket\nimport sys\n\nsock = socket.socket(socket.AF_UNIX, socket.SOCK_STREAM)\nsock.connect(sys.argv[1])\nselector = selectors.DefaultSelector()\nselector.register(0, selectors.EVENT_READ)\nselector.register(sock, selectors.EVENT_READ)\nstdin_open = True\n\nwhile True:\n    for key, _ in selector.select():\n        if key.fileobj == 0:\n            data = os.read(0, 65536)\n            if not data:\n                if stdin_open:\n                    stdin_open = False\n                    selector.unregister(0)\n                    try:\n                        sock.shutdown(socket.SHUT_WR)\n                    except OSError:\n                        pass\n            else:\n                sock.sendall(data)\n        else:\n            data = sock.recv(65536)\n            if not data:\n                raise SystemExit(0)\n            os.write(1, data)\nPY\nchmod +x \"$bridge_path\" || exit 43\n";

/// Where the stdio bridge helper of a version lives on the remote host, as a
/// shell word.
pub fn remote_stdio_bridge_shell_path(version: &str) -> (s: String)
    ensures
        s@ == "$HOME/.local/share/clux/server/"@ + version@ + "/"@ + REMOTE_STDIO_BRIDGE_NAME@,
{
    let mut s = String::new();
    push_str(&mut s, "$HOME/.local/share/clux/server/");
    push_str(&mut s, version);
    push_str(&mut s, "/");
    push_str(&mut s, REMOTE_STDIO_BRIDGE_NAME);
    s
}

/// The remote command that runs the stdio bridge helper on a socket.
pub fn bridge_helper_command(bridge_path: &str, remote_socket: &str) -> (s: String)
    ensures
        s@ == "exec \""@ + bridge_path@ + "\" \""@ + remote_socket@ + "\""@,
{
    let mut s = String::new();
    push_str(&mut s, "exec \"");
    push_str(&mut s, bridge_path);
    push_str(&mut s, "\" \"");
    push_str(&mut s, remote_socket);
    push_str(&mut s, "\"");
    s
}

/// What installing the stdio bridge helper gave: success, or the failure with
/// the remote error output (or a general description when there is none).
pub fn interpret_bridge_install_output(success: bool, stderr: &str) -> (r: Result<(), ClientError>)
    ensures
        success ==> r is Ok,
        !success ==> (r matches Err(ClientError::RemoteBootstrapFailed(m)) && m@ == if trim(stderr@).len() == 0 {
            "failed to install remote stdio bridge"@
        } else {
            trim(stderr@)
        }),
{
    if success {
        return Ok(());
    }
    let err = trimmed(stderr);
    let details = if err.unicode_len() == 0 {
        String::from_str("failed to install remote stdio bridge")
    } else {
        err
    };
    Err(ClientError::RemoteBootstrapFailed(details))
}

} // verus!

