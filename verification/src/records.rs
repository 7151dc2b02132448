//! The normalized metadata record and the policy that builds one record
//! per filesystem entry.

use vstd::prelude::*;
use vstd::string::StringExecFns;
use crate::strutil::push_char;

verus! {

/// One filesystem entry matched by a query.
#[derive(Debug, Clone)]
pub struct FileMetadata {
    /// Matched entry's textual path, as the traversal produced it.
    pub path: String,
    /// Byte count; meaningful for regular files.
    pub size: u64,
    /// Microseconds since the Unix epoch.
    pub modified_time: i64,
    /// Microseconds since the Unix epoch.
    pub accessed_time: i64,
    /// Microseconds since the Unix epoch; falls back to the modification
    /// time when the platform does not expose a creation time.
    pub created_time: i64,
    /// Octal permission bits.
    pub permissions: String,
    /// Platform file identifier, zero where unsupported.
    pub inode: u64,
    pub is_file: bool,
    pub is_dir: bool,
    pub is_symlink: bool,
    /// Lowercase hex content digest, present only when hashing was
    /// requested and the entry is a regular file.
    pub hash: Option<String>,
}

/// What one platform file-status read yielded, as plain values.  A time
/// is `None` when the platform read failed or reported a pre-epoch
/// instant; the creation time is `None` where the platform cannot report
/// one at all.
#[derive(Debug, Clone)]
pub struct StatInfo {
    pub size: u64,
    /// Seconds and nanoseconds since the Unix epoch.
    pub modified: Option<(u64, u32)>,
    pub accessed: Option<(u64, u32)>,
    pub created: Option<(u64, u32)>,
    /// Permission bits as the platform reports them.
    pub mode: u32,
    pub inode: u64,
    pub is_file: bool,
    pub is_dir: bool,
    pub is_symlink: bool,
}

/// Outcome of one file-status read attempt.
#[derive(Debug, Clone)]
pub enum StatOutcome {
    Found(StatInfo),
    NotFound,
    PermissionDenied,
    /// Any I/O failure other than absence or denied permission.
    Failed,
}

/// Microseconds since the epoch for a platform time value, clamped to
/// zero when the read failed or predates the epoch.
pub open spec fn micros_of(t: Option<(u64, u32)>) -> int {
    match t {
        Option::None => 0,
        Option::Some(p) => p.0 * 1_000_000 + p.1 / 1000,
    }
}

/// Both timestamp reads and the effective creation time fit the signed
/// 64-bit microsecond representation.
pub open spec fn stat_times_fit(st: StatInfo) -> bool {
    micros_of(st.modified) <= i64::MAX && micros_of(st.accessed) <= i64::MAX && micros_of(
        st.created,
    ) <= i64::MAX
}

/// Converts a platform time to whole microseconds since the epoch,
/// flooring to microsecond resolution and clamping pre-epoch or failed
/// reads to zero.
pub fn system_time_to_microseconds(time: Option<(u64, u32)>) -> (r: i64)
    requires
        micros_of(time) <= i64::MAX,
    ensures
        r == micros_of(time),
{
    match time {
        Option::None => 0i64,
        Option::Some((s, n)) => {
            let total: u128 = (s as u128) * 1_000_000u128 + ((n / 1000) as u128);
            assert(total <= i64::MAX as u128);
            total as i64
        },
    }
}

/// One octal digit.
pub open spec fn octal_digit(d: int) -> char {
    if d == 0 {
        '0'
    } else if d == 1 {
        '1'
    } else if d == 2 {
        '2'
    } else if d == 3 {
        '3'
    } else if d == 4 {
        '4'
    } else if d == 5 {
        '5'
    } else if d == 6 {
        '6'
    } else {
        '7'
    }
}

/// The octal rendering of `n`, without leading zeros.
pub open spec fn octal_of(n: int) -> Seq<char>
    decreases n,
{
    if n < 8 {
        seq![octal_digit(n)]
    } else {
        octal_of(n / 8).push(octal_digit(n % 8))
    }
}

fn octal_digit_exec(d: u32) -> (r: char)
    requires
        d < 8,
    ensures
        r == octal_digit(d as int),
{
    match d {
        0u32 => '0',
        1u32 => '1',
        2u32 => '2',
        3u32 => '3',
        4u32 => '4',
        5u32 => '5',
        6u32 => '6',
        _ => '7',
    }
}

fn push_octal(s: &mut String, n: u32)
    ensures
        final(s)@ == old(s)@ + octal_of(n as int),
    decreases n,
{
    if n < 8 {
        push_char(s, octal_digit_exec(n));
        assert(old(s)@ + octal_of(n as int) =~= old(s)@.push(octal_digit(n as int)));
    } else {
        push_octal(s, n / 8);
        push_char(s, octal_digit_exec(n % 8));
        assert(old(s)@ + octal_of(n as int) =~= (old(s)@ + octal_of(n as int / 8)).push(
            octal_digit(n as int % 8),
        ));
    }
}

/// Renders permission bits the way the platform's octal mode is shown.
pub fn format_permissions(mode: u32) -> (r: String)
    ensures
        r@ == octal_of(mode as int),
{
    let mut s = String::new();
    push_octal(&mut s, mode);
    assert(Seq::<char>::empty() + octal_of(mode as int) =~= octal_of(mode as int));
    s
}

/// One decimal digit.
pub open spec fn dec_digit(d: int) -> char {
    if d == 0 {
        '0'
    } else if d == 1 {
        '1'
    } else if d == 2 {
        '2'
    } else if d == 3 {
        '3'
    } else if d == 4 {
        '4'
    } else if d == 5 {
        '5'
    } else if d == 6 {
        '6'
    } else if d == 7 {
        '7'
    } else if d == 8 {
        '8'
    } else {
        '9'
    }
}

/// The decimal rendering of `n`, without leading zeros.
pub open spec fn dec_of(n: int) -> Seq<char>
    decreases n,
{
    if n < 10 {
        seq![dec_digit(n)]
    } else {
        dec_of(n / 10).push(dec_digit(n % 10))
    }
}

fn dec_digit_exec(d: u64) -> (r: char)
    requires
        d < 10,
    ensures
        r == dec_digit(d as int),
{
    match d {
        0u64 => '0',
        1u64 => '1',
        2u64 => '2',
        3u64 => '3',
        4u64 => '4',
        5u64 => '5',
        6u64 => '6',
        7u64 => '7',
        8u64 => '8',
        _ => '9',
    }
}

fn push_dec(s: &mut String, n: u64)
    ensures
        final(s)@ == old(s)@ + dec_of(n as int),
    decreases n,
{
    if n < 10 {
        push_char(s, dec_digit_exec(n));
        assert(old(s)@ + dec_of(n as int) =~= old(s)@.push(dec_digit(n as int)));
    } else {
        push_dec(s, n / 10);
        push_char(s, dec_digit_exec(n % 10));
        assert(old(s)@ + dec_of(n as int) =~= (old(s)@ + dec_of(n as int / 10)).push(
            dec_digit(n as int % 10),
        ));
    }
}

/// How a flag prints.
pub open spec fn bool_str(b: bool) -> Seq<char> {
    if b {
        "true"@
    } else {
        "false"@
    }
}

/// The JSON rendering of one status read, fields in a fixed order, with
/// the same timestamp clamping and creation-time fallback as a record.
pub open spec fn metadata_json_of(st: StatInfo) -> Seq<char> {
    "{\"size\": "@ + dec_of(st.size as int) + ", \"modified_time\": "@ + dec_of(
        micros_of(st.modified),
    ) + ", \"accessed_time\": "@ + dec_of(micros_of(st.accessed)) + ", \"created_time\": "@
        + dec_of(micros_of(effective_created(st))) + ", \"permissions\": \""@ + octal_of(
        st.mode as int,
    ) + "\", \"inode\": "@ + dec_of(st.inode as int) + ", \"is_file\": "@ + bool_str(st.is_file)
        + ", \"is_dir\": "@ + bool_str(st.is_dir) + ", \"is_symlink\": "@ + bool_str(st.is_symlink)
        + "}"@
}

/// Renders one status read as a JSON object.
pub fn metadata_json(st: &StatInfo) -> (r: String)
    requires
        stat_times_fit(*st),
    ensures
        r@ == metadata_json_of(*st),
{
    let created = match st.created {
        Option::Some(c) => Option::Some(c),
        Option::None => st.modified,
    };
    assert(micros_of(created) <= i64::MAX);
    let mut s = "{\"size\": ".to_owned();
    push_dec(&mut s, st.size);
    s.append(", \"modified_time\": ");
    push_dec(&mut s, system_time_to_microseconds(st.modified) as u64);
    s.append(", \"accessed_time\": ");
    push_dec(&mut s, system_time_to_microseconds(st.accessed) as u64);
    s.append(", \"created_time\": ");
    push_dec(&mut s, system_time_to_microseconds(created) as u64);
    s.append(", \"permissions\": \"");
    let perms = format_permissions(st.mode);
    s.append(perms.as_str());
    s.append("\", \"inode\": ");
    push_dec(&mut s, st.inode);
    s.append(", \"is_file\": ");
    s.append(if st.is_file { "true" } else { "false" });
    s.append(", \"is_dir\": ");
    s.append(if st.is_dir { "true" } else { "false" });
    s.append(", \"is_symlink\": ");
    s.append(if st.is_symlink { "true" } else { "false" });
    s.append("}");
    assert(s@ =~= metadata_json_of(*st));
    s
}

/// One status read under the follow policy: every field reflects the
/// followed read — the link's target — while the symlink flag reports
/// the link path itself, so a followed link still shows as one.
pub fn stat_with_link_flag(followed: &StatInfo, link_is_symlink: bool) -> (r: StatInfo)
    ensures
        r.size == followed.size,
        r.modified == followed.modified,
        r.accessed == followed.accessed,
        r.created == followed.created,
        r.mode == followed.mode,
        r.inode == followed.inode,
        r.is_file == followed.is_file,
        r.is_dir == followed.is_dir,
        r.is_symlink == link_is_symlink,
{
    StatInfo {
        size: followed.size,
        modified: followed.modified,
        accessed: followed.accessed,
        created: followed.created,
        mode: followed.mode,
        inode: followed.inode,
        is_file: followed.is_file,
        is_dir: followed.is_dir,
        is_symlink: link_is_symlink,
    }
}

/// The effective creation time: the platform's where it has one, the
/// modification time otherwise.
pub open spec fn effective_created(st: StatInfo) -> Option<(u64, u32)> {
    match st.created {
        Option::Some(c) => Option::Some(c),
        Option::None => st.modified,
    }
}

/// `r` is exactly the record that one status read yields for `path`,
/// carrying `hash`.
pub open spec fn record_matches(
    r: FileMetadata,
    path: Seq<char>,
    st: StatInfo,
    hash: Option<Seq<char>>,
) -> bool {
    &&& r.path@ == path
    &&& r.size == st.size
    &&& r.modified_time == micros_of(st.modified)
    &&& r.accessed_time == micros_of(st.accessed)
    &&& r.created_time == micros_of(effective_created(st))
    &&& r.permissions@ == octal_of(st.mode as int)
    &&& r.inode == st.inode
    &&& r.is_file == st.is_file
    &&& r.is_dir == st.is_dir
    &&& r.is_symlink == st.is_symlink
    &&& r.hash.deep_view() == hash
}

/// Assembles the record for one entry from its status read.
pub fn build_record(path: String, st: &StatInfo, hash: Option<String>) -> (r: FileMetadata)
    requires
        stat_times_fit(*st),
    ensures
        record_matches(r, path@, *st, hash.deep_view()),
{
    let created = match st.created {
        Option::Some(c) => Option::Some(c),
        Option::None => st.modified,
    };
    assert(micros_of(created) <= i64::MAX);
    FileMetadata {
        path,
        size: st.size,
        modified_time: system_time_to_microseconds(st.modified),
        accessed_time: system_time_to_microseconds(st.accessed),
        created_time: system_time_to_microseconds(created),
        permissions: format_permissions(st.mode),
        inode: st.inode,
        is_file: st.is_file,
        is_dir: st.is_dir,
        is_symlink: st.is_symlink,
        hash,
    }
}

} // verus!
