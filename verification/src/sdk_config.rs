//! Host-side configuration of sandbox contexts and sandboxes: JSON patches,
//! mounts and their permissions.
use vstd::prelude::*;

verus! {

/// An error reported to the embedding language.
pub enum SdkError {
    InvalidArgument(String),
    Internal(String),
    StreamFull,
    StreamClosed,
}

/// The view of an [`SdkError`].
pub enum ErrorView {
    InvalidArgument(Seq<char>),
    Internal(Seq<char>),
    StreamFull,
    StreamClosed,
}

impl View for SdkError {
    type V = ErrorView;

    open spec fn view(&self) -> ErrorView {
        match self {
            SdkError::InvalidArgument(m) => ErrorView::InvalidArgument(m@),
            SdkError::Internal(m) => ErrorView::Internal(m@),
            SdkError::StreamFull => ErrorView::StreamFull,
            SdkError::StreamClosed => ErrorView::StreamClosed,
        }
    }
}

/// How an error is displayed.
pub open spec fn error_text(e: ErrorView) -> Seq<char> {
    match e {
        ErrorView::InvalidArgument(m) => "Invalid argument: "@ + m,
        ErrorView::Internal(m) => "Internal error: "@ + m,
        ErrorView::StreamFull => "Stream is full"@,
        ErrorView::StreamClosed => "Stream is closed"@,
    }
}

impl SdkError {
    /// The error's display text.
    pub fn message(&self) -> (m: String)
        ensures
            m@ == error_text(self@),
    {
        match self {
            SdkError::InvalidArgument(m) => String::from_str("Invalid argument: ").concat(m.as_str()),
            SdkError::Internal(m) => String::from_str("Internal error: ").concat(m.as_str()),
            SdkError::StreamFull => String::from_str("Stream is full"),
            SdkError::StreamClosed => String::from_str("Stream is closed"),
        }
    }
}

/// An invalid-argument error with `message`.
pub fn invalid_argument(message: &str) -> (e: SdkError)
    ensures
        e@ == ErrorView::InvalidArgument(message@),
{
    SdkError::InvalidArgument(String::from_str(message))
}

/// Directory permissions of a mount.
#[derive(Clone, Copy, Debug, PartialEq, Eq, Structural)]
pub struct DirPerms {
    pub read: bool,
    pub mutate: bool,
}

/// File permissions of a mount.
#[derive(Clone, Copy, Debug, PartialEq, Eq, Structural)]
pub struct FilePerms {
    pub read: bool,
    pub write: bool,
}

/// A permission as written in a configuration.
#[derive(Clone, Copy, Debug, PartialEq, Eq, Structural)]
pub enum PermissionConfig {
    Read,
    Write,
    ReadWrite,
}

/// A mount as written in a configuration.
pub struct MountConfigInput {
    pub host: String,
    pub guest: String,
    pub dir_perms: Option<PermissionConfig>,
    pub file_perms: Option<PermissionConfig>,
}

/// A checked mount: a host directory made visible at a guest path.
pub struct ConfiguredMount {
    pub host: String,
    pub guest: String,
    pub dir_perms: DirPerms,
    pub file_perms: FilePerms,
}

/// Where compiled runtime artifacts are cached.
pub enum CacheDirConfig {
    /// Next to the runtime.
    Auto,
    Disabled,
    Custom(String),
}

/// Configuration of a context, from which sandboxes are instantiated.
pub struct ContextConfig {
    pub cache_dir: CacheDirConfig,
    pub max_memory: Option<usize>,
    pub prelude: Option<String>,
    pub runtime_lib_dir: Option<String>,
    pub mounts: Vec<ConfiguredMount>,
    pub env: Vec<(String, String)>,
}

/// A change to a context configuration: an absent field is left as it is,
/// a present `None` clears it.
pub struct ContextConfigPatch {
    pub cache_dir: Option<Option<String>>,
    pub max_memory: Option<Option<u64>>,
    pub prelude: Option<Option<String>>,
    pub runtime_lib_dir: Option<Option<String>>,
    pub mounts: Option<Vec<MountConfigInput>>,
    /// Environment variables, ordered by name, no name twice.
    pub env: Option<Vec<(String, String)>>,
}

/// Configuration of a sandbox that has not started yet.
pub struct PendingSandboxConfig {
    pub max_memory: Option<usize>,
    pub mounts: Vec<ConfiguredMount>,
    pub env: Vec<(String, String)>,
    pub timeout_ms: Option<u64>,
}

/// A change to a pending sandbox configuration.
pub struct SandboxConfigPatch {
    pub max_memory: Option<Option<u64>>,
    pub timeout_ms: Option<Option<u64>>,
    pub mounts: Option<Vec<MountConfigInput>>,
    /// Environment variables, ordered by name, no name twice.
    pub env: Option<Vec<(String, String)>>,
}

/// Directory permissions granted by a configured permission (read by default).
pub open spec fn dir_perms_of(p: Option<PermissionConfig>) -> DirPerms {
    match p {
        Some(PermissionConfig::Write) => DirPerms { read: false, mutate: true },
        Some(PermissionConfig::ReadWrite) => DirPerms { read: true, mutate: true },
        _ => DirPerms { read: true, mutate: false },
    }
}

/// File permissions granted by a configured permission (read by default).
pub open spec fn file_perms_of(p: Option<PermissionConfig>) -> FilePerms {
    match p {
        Some(PermissionConfig::Write) => FilePerms { read: false, write: true },
        Some(PermissionConfig::ReadWrite) => FilePerms { read: true, write: true },
        _ => FilePerms { read: true, write: false },
    }
}

/// A mount's directory and files are readable unless it is write-only, and
/// writable exactly when it may write: read-write grants both, no
/// permission grants reading alone.
pub proof fn lemma_mount_permissions(p: Option<PermissionConfig>)
    ensures
        dir_perms_of(p).read <==> p != Some(PermissionConfig::Write),
        dir_perms_of(p).mutate <==> (p == Some(PermissionConfig::Write) || p == Some(PermissionConfig::ReadWrite)),
        file_perms_of(p).read <==> p != Some(PermissionConfig::Write),
        file_perms_of(p).write <==> (p == Some(PermissionConfig::Write) || p == Some(PermissionConfig::ReadWrite)),
{
}

/// Why a mount is rejected, if it is.
pub open spec fn mount_error(m: MountConfigInput) -> Option<Seq<char>> {
    if m.host@.len() == 0 {
        Some("mount host path must not be empty"@)
    } else if m.guest@.len() == 0 {
        Some("mount guest path must not be empty"@)
    } else {
        None
    }
}

/// Why the first rejected mount of `s` is rejected, if one is.
pub open spec fn first_mount_error(s: Seq<MountConfigInput>) -> Option<Seq<char>>
    decreases s.len(),
{
    if s.len() == 0 {
        None
    } else {
        match first_mount_error(s.drop_last()) {
            Some(e) => Some(e),
            None => mount_error(s.last()),
        }
    }
}

/// The checked form of an accepted mount.
pub open spec fn configured(m: MountConfigInput) -> ConfiguredMount {
    ConfiguredMount {
        host: m.host,
        guest: m.guest,
        dir_perms: dir_perms_of(m.dir_perms),
        file_perms: file_perms_of(m.file_perms),
    }
}

/// The checked forms of all mounts of `s`.
pub open spec fn configured_all(s: Seq<MountConfigInput>) -> Seq<ConfiguredMount>
    decreases s.len(),
{
    if s.len() == 0 {
        Seq::empty()
    } else {
        configured_all(s.drop_last()).push(configured(s.last()))
    }
}

/// The checked forms are the mounts one by one, in order.
proof fn lemma_configured_all_index(s: Seq<MountConfigInput>)
    ensures
        configured_all(s).len() == s.len(),
        forall|i: int| 0 <= i < s.len() ==> #[trigger] configured_all(s)[i] == configured(s[i]),
    decreases s.len(),
{
    if s.len() > 0 {
        lemma_configured_all_index(s.drop_last());
        assert forall|i: int| 0 <= i < s.len() implies #[trigger] configured_all(s)[i] == configured(s[i]) by {
            if i < s.len() - 1 {
                assert(s.drop_last()[i] == s[i]);
            }
        }
    }
}

/// Accepted mounts keep their paths and order, and each is granted what its
/// configured permissions say: reading unless write-only, writing when it
/// may write.
pub proof fn lemma_accepted_mounts(s: Seq<MountConfigInput>)
    ensures
        parse_mounts_spec(s) matches Ok(v) ==> {
            &&& v.len() == s.len()
            &&& forall|i: int| 0 <= i < s.len() ==> {
                let m = #[trigger] v[i];
                &&& m.host == s[i].host
                &&& m.guest == s[i].guest
                &&& (m.dir_perms.read <==> s[i].dir_perms != Some(PermissionConfig::Write))
                &&& (m.dir_perms.mutate <==> (s[i].dir_perms == Some(PermissionConfig::Write) || s[i].dir_perms
                    == Some(PermissionConfig::ReadWrite)))
                &&& (m.file_perms.read <==> s[i].file_perms != Some(PermissionConfig::Write))
                &&& (m.file_perms.write <==> (s[i].file_perms == Some(PermissionConfig::Write) || s[i].file_perms
                    == Some(PermissionConfig::ReadWrite)))
            }
        },
{
    lemma_configured_all_index(s);
    assert forall|i: int| 0 <= i < s.len() implies {
        let m = #[trigger] configured_all(s)[i];
        &&& (m.dir_perms.read <==> s[i].dir_perms != Some(PermissionConfig::Write))
        &&& (m.dir_perms.mutate <==> (s[i].dir_perms == Some(PermissionConfig::Write) || s[i].dir_perms
            == Some(PermissionConfig::ReadWrite)))
        &&& (m.file_perms.read <==> s[i].file_perms != Some(PermissionConfig::Write))
        &&& (m.file_perms.write <==> (s[i].file_perms == Some(PermissionConfig::Write) || s[i].file_perms
            == Some(PermissionConfig::ReadWrite)))
    } by {
        lemma_mount_permissions(s[i].dir_perms);
        lemma_mount_permissions(s[i].file_perms);
    }
}

/// The result of checking mounts.
pub open spec fn parse_mounts_spec(s: Seq<MountConfigInput>) -> Result<Seq<ConfiguredMount>, ErrorView> {
    match first_mount_error(s) {
        Some(e) => Err(ErrorView::InvalidArgument(e)),
        None => Ok(configured_all(s)),
    }
}

/// Directory permissions granted by a configured permission.
pub fn dir_perms(p: Option<PermissionConfig>) -> (d: DirPerms)
    ensures
        d == dir_perms_of(p),
        d.read <==> p != Some(PermissionConfig::Write),
        d.mutate <==> (p == Some(PermissionConfig::Write) || p == Some(PermissionConfig::ReadWrite)),
{
    match p {
        Some(PermissionConfig::Write) => DirPerms { read: false, mutate: true },
        Some(PermissionConfig::ReadWrite) => DirPerms { read: true, mutate: true },
        _ => DirPerms { read: true, mutate: false },
    }
}

/// File permissions granted by a configured permission.
pub fn file_perms(p: Option<PermissionConfig>) -> (f: FilePerms)
    ensures
        f == file_perms_of(p),
        f.read <==> p != Some(PermissionConfig::Write),
        f.write <==> (p == Some(PermissionConfig::Write) || p == Some(PermissionConfig::ReadWrite)),
{
    match p {
        Some(PermissionConfig::Write) => FilePerms { read: false, write: true },
        Some(PermissionConfig::ReadWrite) => FilePerms { read: true, write: true },
        _ => FilePerms { read: true, write: false },
    }
}

/// Check configured mounts: host and guest paths must not be empty; missing
/// permissions mean read-only.
pub fn parse_mounts(mounts: Vec<MountConfigInput>) -> (r: Result<Vec<ConfiguredMount>, SdkError>)
    ensures
        match r {
            Ok(v) => parse_mounts_spec(mounts@) == Ok::<Seq<ConfiguredMount>, ErrorView>(v@),
            Err(e) => parse_mounts_spec(mounts@) == Err::<Seq<ConfiguredMount>, ErrorView>(e@),
        },
        r matches Ok(v) ==> v@.len() == mounts@.len() && forall|i: int| 0 <= i < mounts@.len() ==> {
            &&& ((#[trigger] v@[i]).dir_perms.read <==> mounts@[i].dir_perms != Some(PermissionConfig::Write))
            &&& (v@[i].dir_perms.mutate <==> (mounts@[i].dir_perms == Some(PermissionConfig::Write)
                || mounts@[i].dir_perms == Some(PermissionConfig::ReadWrite)))
            &&& (v@[i].file_perms.read <==> mounts@[i].file_perms != Some(PermissionConfig::Write))
            &&& (v@[i].file_perms.write <==> (mounts@[i].file_perms == Some(PermissionConfig::Write)
                || mounts@[i].file_perms == Some(PermissionConfig::ReadWrite)))
        },
{
    proof {
        lemma_accepted_mounts(mounts@);
    }
    let ghost all = mounts@;
    let mut parsed: Vec<ConfiguredMount> = Vec::new();
    let mut rest = mounts;
    let n = rest.len();
    let mut i: usize = 0;
    proof {
        assert(all.skip(0) =~= all);
        assert(all.take(0) =~= Seq::<MountConfigInput>::empty());
    }
    while i < n
        invariant
            n == all.len(),
            all == mounts@,
            i <= n,
            rest@ == all.skip(i as int),
            first_mount_error(all.take(i as int)) is None,
            parsed@ == configured_all(all.take(i as int)),
        decreases n - i,
    {
        let mount = rest.remove(0);
        proof {
            assert(mount == all[i as int]);
            assert(rest@ =~= all.skip(i + 1));
            assert(all.take(i + 1).drop_last() =~= all.take(i as int));
            assert(all.take(i + 1).last() == mount);
        }
        if mount.host.as_str().is_empty() {
            proof {
                lemma_first_error_extends(all, i as int);
            }
            return Err(invalid_argument("mount host path must not be empty"));
        }
        if mount.guest.as_str().is_empty() {
            proof {
                lemma_first_error_extends(all, i as int);
            }
            return Err(invalid_argument("mount guest path must not be empty"));
        }
        let dir = dir_perms(mount.dir_perms);
        let file = file_perms(mount.file_perms);
        parsed.push(ConfiguredMount { host: mount.host, guest: mount.guest, dir_perms: dir, file_perms: file });
        i = i + 1;
    }
    proof {
        assert(all.take(n as int) =~= all);
    }
    Ok(parsed)
}

/// Once the first error lies at `i`, it is the first error of the whole sequence.
proof fn lemma_first_error_extends(s: Seq<MountConfigInput>, i: int)
    requires
        0 <= i < s.len(),
        first_mount_error(s.take(i)) is None,
        mount_error(s[i]) is Some,
    ensures
        first_mount_error(s) == mount_error(s[i]),
    decreases s.len() - i,
{
    assert(s.take(i + 1).drop_last() =~= s.take(i));
    assert(first_mount_error(s.take(i + 1)) == mount_error(s[i]));
    lemma_first_error_prefix(s, i + 1);
}

/// An error in a prefix is the error of the whole sequence.
proof fn lemma_first_error_prefix(s: Seq<MountConfigInput>, k: int)
    requires
        0 <= k <= s.len(),
        first_mount_error(s.take(k)) is Some,
    ensures
        first_mount_error(s) == first_mount_error(s.take(k)),
    decreases s.len() - k,
{
    if k == s.len() {
        assert(s.take(k) =~= s);
    } else {
        assert(s.take(k + 1).drop_last() =~= s.take(k));
        lemma_first_error_prefix(s, k + 1);
    }
}

/// Whether `d` holds a mount at guest path `guest`.
pub open spec fn has_guest(d: Seq<ConfiguredMount>, guest: Seq<char>) -> bool {
    exists|i: int| 0 <= i < d.len() && (#[trigger] d[i]).guest@ == guest
}

/// The mounts of `s`, one per guest path: a later mount replaces an earlier
/// one at the same guest path, in the earlier one's place.
pub open spec fn dedupe_spec(s: Seq<ConfiguredMount>) -> Seq<ConfiguredMount>
    decreases s.len(),
{
    if s.len() == 0 {
        Seq::empty()
    } else {
        let d = dedupe_spec(s.drop_last());
        let m = s.last();
        if has_guest(d, m.guest@) {
            d.update(choose|i: int| 0 <= i < d.len() && (#[trigger] d[i]).guest@ == m.guest@, m)
        } else {
            d.push(m)
        }
    }
}

/// No two mounts of `d` share a guest path.
pub open spec fn unique_guests(d: Seq<ConfiguredMount>) -> bool {
    forall|i: int, j: int| 0 <= i < d.len() && 0 <= j < d.len() && i != j ==> (#[trigger] d[i]).guest@ != (#[trigger] d[j]).guest@
}

/// Deduplicated mounts never share a guest path.
pub proof fn lemma_dedupe_unique(s: Seq<ConfiguredMount>)
    ensures
        unique_guests(dedupe_spec(s)),
    decreases s.len(),
{
    if s.len() > 0 {
        lemma_dedupe_unique(s.drop_last());
    }
}

/// Keep one mount per guest path; a later mount replaces an earlier one in place.
pub fn dedupe_mounts_by_guest(mounts: Vec<ConfiguredMount>) -> (d: Vec<ConfiguredMount>)
    ensures
        d@ == dedupe_spec(mounts@),
{
    let ghost all = mounts@;
    let mut deduped: Vec<ConfiguredMount> = Vec::new();
    let mut rest = mounts;
    let n = rest.len();
    let mut i: usize = 0;
    proof {
        assert(all.skip(0) =~= all);
        assert(all.take(0) =~= Seq::<ConfiguredMount>::empty());
    }
    while i < n
        invariant
            n == all.len(),
            i <= n,
            rest@ == all.skip(i as int),
            deduped@ == dedupe_spec(all.take(i as int)),
        decreases n - i,
    {
        let mount = rest.remove(0);
        proof {
            assert(mount == all[i as int]);
            assert(rest@ =~= all.skip(i + 1));
            assert(all.take(i + 1).drop_last() =~= all.take(i as int));
            assert(all.take(i + 1).last() == mount);
            lemma_dedupe_unique(all.take(i as int));
        }
        let mut j: usize = 0;
        let mut found = false;
        while j < deduped.len()
            invariant_except_break
                !found,
            invariant
                j <= deduped@.len(),
                forall|k: int| 0 <= k < j ==> (#[trigger] deduped@[k]).guest@ != mount.guest@,
            ensures
                found ==> j < deduped@.len() && deduped@[j as int].guest@ == mount.guest@,
                !found ==> forall|k: int| 0 <= k < deduped@.len() ==> (#[trigger] deduped@[k]).guest@ != mount.guest@,
            decreases deduped@.len() - j,
        {
            if deduped[j].guest == mount.guest {
                found = true;
                break;
            }
            j = j + 1;
        }
        let ghost before = deduped@;
        if found {
            proof {
                let c = choose|k: int| 0 <= k < before.len() && (#[trigger] before[k]).guest@ == mount.guest@;
                assert(c == j);
            }
            deduped.set(j, mount);
        } else {
            deduped.push(mount);
        }
        i = i + 1;
    }
    proof {
        assert(all.take(n as int) =~= all);
    }
    deduped
}

/// The index in `s` of the last mount at guest path `guest`, or -1.
pub open spec fn last_with_guest(s: Seq<ConfiguredMount>, guest: Seq<char>) -> int
    decreases s.len(),
{
    if s.len() == 0 {
        -1
    } else if s.last().guest@ == guest {
        s.len() - 1
    } else {
        last_with_guest(s.drop_last(), guest)
    }
}

/// After deduplication the mount at each guest path is the last one given for
/// it, and every guest path given is present.
pub proof fn lemma_dedupe_last_wins(s: Seq<ConfiguredMount>)
    ensures
        forall|i: int| 0 <= i < dedupe_spec(s).len() ==> {
            let k = #[trigger] last_with_guest(s, dedupe_spec(s)[i].guest@);
            0 <= k < s.len() && s[k] == dedupe_spec(s)[i]
        },
        forall|k: int| 0 <= k < s.len() ==> has_guest(dedupe_spec(s), (#[trigger] s[k]).guest@),
    decreases s.len(),
{
    if s.len() > 0 {
        let p = s.drop_last();
        lemma_dedupe_last_wins(p);
        lemma_dedupe_unique(p);
        let d = dedupe_spec(p);
        let m = s.last();
        assert forall|i: int| 0 <= i < dedupe_spec(s).len() implies {
            let k = #[trigger] last_with_guest(s, dedupe_spec(s)[i].guest@);
            0 <= k < s.len() && s[k] == dedupe_spec(s)[i]
        } by {
            if dedupe_spec(s)[i].guest@ == m.guest@ {
                if has_guest(d, m.guest@) {
                    let c = choose|c: int| 0 <= c < d.len() && (#[trigger] d[c]).guest@ == m.guest@;
                    if i != c {
                        assert(d[i].guest@ != d[c].guest@);
                    }
                }
            } else {
                if has_guest(d, m.guest@) {
                    let c = choose|c: int| 0 <= c < d.len() && (#[trigger] d[c]).guest@ == m.guest@;
                    assert(dedupe_spec(s)[i] == d[i]);
                } else {
                    assert(dedupe_spec(s)[i] == d[i]);
                }
                let k = last_with_guest(p, d[i].guest@);
                assert(p[k] == s[k]);
            }
        }
        assert forall|k: int| 0 <= k < s.len() implies has_guest(dedupe_spec(s), (#[trigger] s[k]).guest@) by {
            if k == s.len() - 1 {
                if has_guest(d, m.guest@) {
                    let c = choose|c: int| 0 <= c < d.len() && (#[trigger] d[c]).guest@ == m.guest@;
                    assert(dedupe_spec(s)[c].guest@ == m.guest@);
                } else {
                    assert(dedupe_spec(s)[d.len() as int].guest@ == m.guest@);
                }
            } else {
                assert(p[k] == s[k]);
                assert(has_guest(d, p[k].guest@));
                let w = choose|w: int| 0 <= w < d.len() && (#[trigger] d[w]).guest@ == p[k].guest@;
                if has_guest(d, m.guest@) {
                    let c = choose|c: int| 0 <= c < d.len() && (#[trigger] d[c]).guest@ == m.guest@;
                    if w == c {
                        assert(dedupe_spec(s)[c].guest@ == m.guest@);
                        assert(d[w].guest@ == m.guest@);
                    } else {
                        assert(dedupe_spec(s)[w] == d[w]);
                    }
                } else {
                    assert(dedupe_spec(s)[w] == d[w]);
                }
            }
        }
    }
}

/// The view of a context configuration.
pub struct ContextConfigView {
    pub cache_dir: CacheDirConfig,
    pub max_memory: Option<usize>,
    pub prelude: Option<String>,
    pub runtime_lib_dir: Option<String>,
    pub mounts: Seq<ConfiguredMount>,
    pub env: Seq<(String, String)>,
}

impl View for ContextConfig {
    type V = ContextConfigView;

    open spec fn view(&self) -> ContextConfigView {
        ContextConfigView {
            cache_dir: self.cache_dir,
            max_memory: self.max_memory,
            prelude: self.prelude,
            runtime_lib_dir: self.runtime_lib_dir,
            mounts: self.mounts@,
            env: self.env@,
        }
    }
}

/// The view of a pending sandbox configuration.
pub struct PendingSandboxConfigView {
    pub max_memory: Option<usize>,
    pub mounts: Seq<ConfiguredMount>,
    pub env: Seq<(String, String)>,
    pub timeout_ms: Option<u64>,
}

impl View for PendingSandboxConfig {
    type V = PendingSandboxConfigView;

    open spec fn view(&self) -> PendingSandboxConfigView {
        PendingSandboxConfigView {
            max_memory: self.max_memory,
            mounts: self.mounts@,
            env: self.env@,
            timeout_ms: self.timeout_ms,
        }
    }
}

/// The view of a unit result.
pub open spec fn unit_view(r: Result<(), SdkError>) -> Result<(), ErrorView> {
    match r {
        Ok(()) => Ok(()),
        Err(e) => Err(e@),
    }
}

/// A memory limit from a patch; it must fit in `usize`.
pub open spec fn patch_max_memory(v: Option<u64>) -> Result<Option<usize>, ErrorView> {
    match v {
        None => Ok(None),
        Some(x) => if x <= usize::MAX {
            Ok(Some(x as usize))
        } else {
            Err(ErrorView::InvalidArgument("max_memory exceeds usize"@))
        },
    }
}

/// A timeout from a patch; it must be positive.
pub open spec fn patch_timeout(v: Option<u64>) -> Result<Option<u64>, ErrorView> {
    match v {
        Some(0) => Err(ErrorView::InvalidArgument("timeout_ms must be greater than 0"@)),
        _ => Ok(v),
    }
}

/// Mounts from a patch, if it gives any.
pub open spec fn patch_mounts(v: Option<Vec<MountConfigInput>>, current: Seq<ConfiguredMount>) -> Result<Seq<ConfiguredMount>, ErrorView> {
    match v {
        None => Ok(current),
        Some(m) => parse_mounts_spec(m@),
    }
}

/// `a` sorts before `b` as `String`s do: by their characters, in order.
pub open spec fn chars_less(a: Seq<char>, b: Seq<char>) -> bool
    decreases a.len(),
{
    if a.len() == 0 {
        b.len() > 0
    } else if b.len() == 0 {
        false
    } else if a[0] != b[0] {
        (a[0] as u32) < (b[0] as u32)
    } else {
        chars_less(a.drop_first(), b.drop_first())
    }
}

/// Environment entries ordered by name, no name twice, as a map keyed by
/// name holds them.
pub open spec fn env_ordered(e: Seq<(String, String)>) -> bool {
    forall|i: int, j: int| 0 <= i < j < e.len() ==> chars_less(e[i].0@, e[j].0@)
}

/// A patch's environment, if it gives one, is ordered by name.
pub open spec fn patch_env_ordered(v: Option<Vec<(String, String)>>) -> bool {
    v matches Some(e) ==> env_ordered(e@)
}

/// The environment from a patch, if it gives one.
pub open spec fn patch_env(v: Option<Vec<(String, String)>>, current: Seq<(String, String)>) -> Seq<(String, String)> {
    match v {
        None => current,
        Some(e) => e@,
    }
}

/// A context configuration after a patch, field by field in declaration
/// order; on an error the fields before it are already changed.
pub open spec fn apply_context_patch(c: ContextConfigView, p: ContextConfigPatch) -> (ContextConfigView, Result<(), ErrorView>) {
    let c1 = match p.cache_dir {
        None => c,
        Some(None) => ContextConfigView { cache_dir: CacheDirConfig::Disabled, ..c },
        Some(Some(path)) => ContextConfigView { cache_dir: CacheDirConfig::Custom(path), ..c },
    };
    let mm = match p.max_memory {
        None => Ok(c1.max_memory),
        Some(v) => patch_max_memory(v),
    };
    match mm {
        Err(e) => (c1, Err(e)),
        Ok(max_memory) => {
            let c2 = ContextConfigView { max_memory, ..c1 };
            let c3 = match p.prelude {
                None => c2,
                Some(x) => ContextConfigView { prelude: x, ..c2 },
            };
            let c4 = match p.runtime_lib_dir {
                None => c3,
                Some(x) => ContextConfigView { runtime_lib_dir: x, ..c3 },
            };
            match patch_mounts(p.mounts, c4.mounts) {
                Err(e) => (c4, Err(e)),
                Ok(mounts) => (ContextConfigView { mounts, env: patch_env(p.env, c4.env), ..c4 }, Ok(())),
            }
        },
    }
}

/// A pending sandbox configuration after a patch, field by field in
/// declaration order; on an error the fields before it are already changed.
pub open spec fn apply_sandbox_patch(c: PendingSandboxConfigView, p: SandboxConfigPatch) -> (PendingSandboxConfigView, Result<(), ErrorView>) {
    let mm = match p.max_memory {
        None => Ok(c.max_memory),
        Some(v) => patch_max_memory(v),
    };
    match mm {
        Err(e) => (c, Err(e)),
        Ok(max_memory) => {
            let c1 = PendingSandboxConfigView { max_memory, ..c };
            let t = match p.timeout_ms {
                None => Ok(c1.timeout_ms),
                Some(v) => patch_timeout(v),
            };
            match t {
                Err(e) => (c1, Err(e)),
                Ok(timeout_ms) => {
                    let c2 = PendingSandboxConfigView { timeout_ms, ..c1 };
                    match patch_mounts(p.mounts, c2.mounts) {
                        Err(e) => (c2, Err(e)),
                        Ok(mounts) => (PendingSandboxConfigView { mounts, env: patch_env(p.env, c2.env), ..c2 }, Ok(())),
                    }
                },
            }
        },
    }
}

/// Check a memory limit from a patch.
fn convert_max_memory(v: Option<u64>) -> (r: Result<Option<usize>, SdkError>)
    ensures
        match r {
            Ok(m) => patch_max_memory(v) == Ok::<Option<usize>, ErrorView>(m),
            Err(e) => patch_max_memory(v) == Err::<Option<usize>, ErrorView>(e@),
        },
{
    match v {
        None => Ok(None),
        Some(x) => if x as u128 <= usize::MAX as u128 {
            Ok(Some(x as usize))
        } else {
            Err(invalid_argument("max_memory exceeds usize"))
        },
    }
}

impl Default for ContextConfig {
    fn default() -> (c: Self)
        ensures
            c@ == (ContextConfigView {
                cache_dir: CacheDirConfig::Auto,
                max_memory: None,
                prelude: None,
                runtime_lib_dir: None,
                mounts: Seq::empty(),
                env: Seq::empty(),
            }),
    {
        ContextConfig {
            cache_dir: CacheDirConfig::Auto,
            max_memory: None,
            prelude: None,
            runtime_lib_dir: None,
            mounts: Vec::new(),
            env: Vec::new(),
        }
    }
}

impl ContextConfig {
    /// Apply a configuration patch.
    pub fn apply_patch(&mut self, patch: ContextConfigPatch) -> (r: Result<(), SdkError>)
        requires
            patch_env_ordered(patch.env),
        ensures
            (final(self)@, unit_view(r)) == apply_context_patch(old(self)@, patch),
            env_ordered(old(self).env@) ==> env_ordered(final(self).env@),
            r is Ok ==> (patch.env matches Some(e) ==> final(self).env@ == e@),
            r is Ok && patch.env is None ==> final(self).env@ == old(self).env@,
    {
        let ContextConfigPatch { cache_dir, max_memory, prelude, runtime_lib_dir, mounts, env } = patch;
        match cache_dir {
            None => {},
            Some(None) => {
                self.cache_dir = CacheDirConfig::Disabled;
            },
            Some(Some(path)) => {
                self.cache_dir = CacheDirConfig::Custom(path);
            },
        }
        if let Some(v) = max_memory {
            match convert_max_memory(v) {
                Ok(m) => {
                    self.max_memory = m;
                },
                Err(e) => {
                    return Err(e);
                },
            }
        }
        if let Some(x) = prelude {
            self.prelude = x;
        }
        if let Some(x) = runtime_lib_dir {
            self.runtime_lib_dir = x;
        }
        if let Some(m) = mounts {
            match parse_mounts(m) {
                Ok(parsed) => {
                    self.mounts = parsed;
                },
                Err(e) => {
                    return Err(e);
                },
            }
        }
        if let Some(e) = env {
            self.env = e;
        }
        Ok(())
    }
}

impl Default for PendingSandboxConfig {
    fn default() -> (c: Self)
        ensures
            c@ == (PendingSandboxConfigView { max_memory: None, mounts: Seq::empty(), env: Seq::empty(), timeout_ms: None }),
    {
        PendingSandboxConfig { max_memory: None, mounts: Vec::new(), env: Vec::new(), timeout_ms: None }
    }
}

impl PendingSandboxConfig {
    /// Apply a configuration patch.
    pub fn apply_patch(&mut self, patch: SandboxConfigPatch) -> (r: Result<(), SdkError>)
        requires
            patch_env_ordered(patch.env),
        ensures
            (final(self)@, unit_view(r)) == apply_sandbox_patch(old(self)@, patch),
            env_ordered(old(self).env@) ==> env_ordered(final(self).env@),
            r is Ok ==> (patch.env matches Some(e) ==> final(self).env@ == e@),
            r is Ok && patch.env is None ==> final(self).env@ == old(self).env@,
    {
        let SandboxConfigPatch { max_memory, timeout_ms, mounts, env } = patch;
        if let Some(v) = max_memory {
            match convert_max_memory(v) {
                Ok(m) => {
                    self.max_memory = m;
                },
                Err(e) => {
                    return Err(e);
                },
            }
        }
        if let Some(t) = timeout_ms {
            if t == Some(0u64) {
                return Err(invalid_argument("timeout_ms must be greater than 0"));
            }
            self.timeout_ms = t;
        }
        if let Some(m) = mounts {
            match parse_mounts(m) {
                Ok(parsed) => {
                    self.mounts = parsed;
                },
                Err(e) => {
                    return Err(e);
                },
            }
        }
        if let Some(e) = env {
            self.env = e;
        }
        Ok(())
    }
}

/// A successful sandbox patch sets every field it gives and keeps every
/// field it leaves out; in particular its environment replaces the old one.
pub proof fn lemma_sandbox_patch_fields(c: PendingSandboxConfigView, p: SandboxConfigPatch)
    ensures
        apply_sandbox_patch(c, p).1 is Ok ==> {
            let n = apply_sandbox_patch(c, p).0;
            &&& (p.env matches Some(e) ==> n.env == e@)
            &&& (p.env is None ==> n.env == c.env)
            &&& (p.mounts is None ==> n.mounts == c.mounts)
            &&& (p.mounts matches Some(m) ==> parse_mounts_spec(m@) == Ok::<Seq<ConfiguredMount>, ErrorView>(n.mounts))
            &&& (p.timeout_ms is None ==> n.timeout_ms == c.timeout_ms)
            &&& (p.max_memory is None ==> n.max_memory == c.max_memory)
        },
{
}

/// A successful context patch sets every field it gives and keeps every
/// field it leaves out; in particular its environment replaces the old one.
pub proof fn lemma_context_patch_fields(c: ContextConfigView, p: ContextConfigPatch)
    ensures
        apply_context_patch(c, p).1 is Ok ==> {
            let n = apply_context_patch(c, p).0;
            &&& (p.env matches Some(e) ==> n.env == e@)
            &&& (p.env is None ==> n.env == c.env)
            &&& (p.mounts is None ==> n.mounts == c.mounts)
            &&& (p.mounts matches Some(m) ==> parse_mounts_spec(m@) == Ok::<Seq<ConfiguredMount>, ErrorView>(n.mounts))
            &&& (p.prelude matches Some(x) ==> n.prelude == x)
            &&& (p.prelude is None ==> n.prelude == c.prelude)
            &&& (p.runtime_lib_dir matches Some(x) ==> n.runtime_lib_dir == x)
            &&& (p.runtime_lib_dir is None ==> n.runtime_lib_dir == c.runtime_lib_dir)
            &&& (p.cache_dir is None ==> n.cache_dir == c.cache_dir)
            &&& (p.cache_dir == Some(None::<String>) ==> n.cache_dir == CacheDirConfig::Disabled)
            &&& (p.cache_dir matches Some(Some(path)) ==> n.cache_dir == CacheDirConfig::Custom(path))
            &&& (p.max_memory is None ==> n.max_memory == c.max_memory)
        },
{
}

/// A patch that changes nothing.
pub open spec fn empty_context_patch() -> ContextConfigPatch {
    ContextConfigPatch { cache_dir: None, max_memory: None, prelude: None, runtime_lib_dir: None, mounts: None, env: None }
}

/// A patch without fields leaves the configuration as it is.
pub proof fn lemma_empty_context_patch(c: ContextConfigView)
    ensures
        apply_context_patch(c, empty_context_patch()) == (c, Ok::<(), ErrorView>(())),
{
}

/// Applying a patch that succeeded once more changes nothing further.
pub proof fn lemma_context_patch_idempotent(c: ContextConfigView, p: ContextConfigPatch)
    requires
        apply_context_patch(c, p).1 is Ok,
    ensures
        apply_context_patch(apply_context_patch(c, p).0, p) == apply_context_patch(c, p),
{
}

/// Applying a sandbox patch that succeeded once more changes nothing further.
pub proof fn lemma_sandbox_patch_idempotent(c: PendingSandboxConfigView, p: SandboxConfigPatch)
    requires
        apply_sandbox_patch(c, p).1 is Ok,
    ensures
        apply_sandbox_patch(apply_sandbox_patch(c, p).0, p) == apply_sandbox_patch(c, p),
{
}

/// Message when a context's template is set a second time.
pub open spec fn template_set_message() -> Seq<char> {
    "context template already initialized"@
}

/// Message when a context's template is used before it is set.
pub open spec fn template_missing_message() -> Seq<char> {
    "runtime template not initialized"@
}

/// A context: its configuration and, once initialized, the runtime template
/// that sandboxes are instantiated from. The configuration is frozen once the
/// template is set.
pub struct ContextState<T> {
    pub config: ContextConfig,
    pub template: Option<T>,
}

impl<T> ContextState<T> {
    /// A context with the default configuration and no template.
    pub fn new() -> (s: Self)
        ensures
            s.config@ == ContextConfig::default_view(),
            s.template is None,
    {
        ContextState { config: ContextConfig::default(), template: None }
    }

    /// Apply a configuration patch; refused once the template is set.
    pub fn configure(&mut self, patch: ContextConfigPatch) -> (r: Result<(), SdkError>)
        requires
            patch_env_ordered(patch.env),
        ensures
            old(self).template is Some ==> *final(self) == *old(self)
                && unit_view(r) == Err::<(), ErrorView>(ErrorView::InvalidArgument(template_set_message())),
            old(self).template is None ==> final(self).template is None
                && (final(self).config@, unit_view(r)) == apply_context_patch(old(self).config@, patch),
    {
        if self.template.is_some() {
            return Err(invalid_argument("context template already initialized"));
        }
        self.config.apply_patch(patch)
    }

    /// The configuration to build the template from; refused once it is set.
    pub fn template_config(&self) -> (r: Result<&ContextConfig, SdkError>)
        ensures
            self.template is Some ==> (r matches Err(e) && e@ == ErrorView::InvalidArgument(template_set_message())),
            self.template is None ==> (r matches Ok(c) && c == &self.config),
    {
        if self.template.is_some() {
            return Err(invalid_argument("context template already initialized"));
        }
        Ok(&self.config)
    }

    /// Install the built template; refused if one was installed meanwhile.
    pub fn install_template(&mut self, template: T) -> (r: Result<(), SdkError>)
        ensures
            old(self).template is Some ==> *final(self) == *old(self)
                && unit_view(r) == Err::<(), ErrorView>(ErrorView::InvalidArgument(template_set_message())),
            old(self).template is None ==> final(self).template == Some(template) && final(self).config == old(self).config
                && r is Ok,
    {
        if self.template.is_some() {
            return Err(invalid_argument("context template already initialized"));
        }
        self.template = Some(template);
        Ok(())
    }

    /// The template to instantiate sandboxes from.
    pub fn template(&self) -> (r: Result<&T, SdkError>)
        ensures
            self.template is None ==> (r matches Err(e) && e@ == ErrorView::InvalidArgument(template_missing_message())),
            self.template matches Some(t) ==> (r matches Ok(u) && *u == t),
    {
        match &self.template {
            Some(t) => Ok(t),
            None => Err(invalid_argument("runtime template not initialized")),
        }
    }

    /// Whether the template is set.
    pub fn has_template(&self) -> (b: bool)
        ensures
            b == self.template is Some,
    {
        self.template.is_some()
    }
}

impl ContextConfig {
    /// The view of the default configuration.
    pub open spec fn default_view() -> ContextConfigView {
        ContextConfigView {
            cache_dir: CacheDirConfig::Auto,
            max_memory: None,
            prelude: None,
            runtime_lib_dir: None,
            mounts: Seq::empty(),
            env: Seq::empty(),
        }
    }

    /// The cache directory to use: `default_dir` (next to the runtime) unless
    /// disabled or set.
    pub fn cache_path(&self, default_dir: String) -> (p: Option<String>)
        ensures
            p == (match self.cache_dir {
                CacheDirConfig::Auto => Some(default_dir),
                CacheDirConfig::Disabled => None,
                CacheDirConfig::Custom(path) => Some(path),
            }),
    {
        match &self.cache_dir {
            CacheDirConfig::Auto => Some(default_dir),
            CacheDirConfig::Disabled => None,
            CacheDirConfig::Custom(path) => Some(path.clone()),
        }
    }
}

/// The guest path where the runtime's standard library is mounted.
pub open spec fn lib_guest() -> Seq<char> {
    "/lib"@
}

/// `m` is the read-only mount of the runtime's standard library at `lib_dir`.
pub open spec fn is_lib_mount(m: ConfiguredMount, lib_dir: String) -> bool {
    &&& m.host == lib_dir
    &&& m.guest@ == lib_guest()
    &&& m.dir_perms == DirPerms { read: true, mutate: false }
    &&& m.file_perms == FilePerms { read: true, write: false }
}

/// The mounts of a runtime template: the runtime's standard library first,
/// then the configured mounts, one per guest path.
pub fn template_mounts(lib_dir: String, mounts: Vec<ConfiguredMount>) -> (d: Vec<ConfiguredMount>)
    ensures
        exists|m: ConfiguredMount| is_lib_mount(m, lib_dir) && d@ == dedupe_spec(seq![m] + mounts@),
{
    let lib = ConfiguredMount {
        host: lib_dir,
        guest: String::from_str("/lib"),
        dir_perms: DirPerms { read: true, mutate: false },
        file_perms: FilePerms { read: true, write: false },
    };
    let ghost m = lib;
    let mut all: Vec<ConfiguredMount> = Vec::new();
    all.push(lib);
    let mut rest = mounts;
    let ghost given = rest@;
    all.append(&mut rest);
    proof {
        assert(all@ =~= seq![m] + given);
    }
    let d = dedupe_mounts_by_guest(all);
    proof {
        assert(is_lib_mount(m, lib_dir) && d@ == dedupe_spec(seq![m] + mounts@));
    }
    d
}

} // verus!
