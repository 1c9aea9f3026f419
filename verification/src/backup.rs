//! Backups: their configuration and records, the checksum of a backed-up
//! file, and which old backups a cleanup removes.

use vstd::prelude::*;
use crate::line_protocol::strings;
use crate::tssp_manager::{append_hex, hex_digits};

verus! {

/// Whether backups are taken, where they go, and how many are kept.
#[derive(Debug, Clone)]
pub struct BackupConfig {
    pub enabled: bool,
    pub backup_dir: String,
    pub max_full_backups: usize,
    pub max_incremental_backups: usize,
}

impl Default for BackupConfig {
    /// Enabled, in `backups`, keeping three full and ten incremental backups.
    fn default() -> (r: Self)
        ensures
            r.enabled,
            r.backup_dir@ == "backups"@,
            r.max_full_backups == 3,
            r.max_incremental_backups == 10,
    {
        BackupConfig { enabled: true, backup_dir: "backups".to_owned(), max_full_backups: 3, max_incremental_backups: 10 }
    }
}

/// A full backup, or one of what changed since another.
#[derive(Debug, Clone, Copy, PartialEq, Eq, Structural)]
pub enum BackupType {
    Full,
    Incremental,
}

/// A file in a backup.
#[derive(Debug, Clone)]
pub struct BackupFileInfo {
    pub path: String,
    pub size: u64,
    pub checksum: String,
    pub shard_id: u64,
    pub measurement: String,
}

/// The files of a database's shard in a backup.
#[derive(Debug, Clone)]
pub struct DatabaseBackup {
    pub name: String,
    pub retention_policy: String,
    pub shard_id: u64,
    pub files: Vec<BackupFileInfo>,
}

/// One shift of the CRC-32 register (the IEEE polynomial, reflected).
pub open spec fn crc_shift(c: u32) -> u32 {
    if c & 1 == 1 { (c >> 1u32) ^ 0xedb8_8320u32 } else { c >> 1u32 }
}

/// The CRC-32 register after a byte.
pub open spec fn crc_byte(c: u32, b: u8) -> u32 {
    crc_shift(crc_shift(crc_shift(crc_shift(crc_shift(crc_shift(crc_shift(crc_shift(c ^ (b as u32)))))))))
}

/// The CRC-32 register after the bytes, from all ones.
pub open spec fn crc_register(data: Seq<u8>) -> u32
    decreases data.len(),
{
    if data.len() == 0 { 0xffff_ffffu32 } else { crc_byte(crc_register(data.drop_last()), data.last()) }
}

/// The CRC-32 (IEEE) checksum of bytes: the register, inverted.
pub open spec fn crc32(data: Seq<u8>) -> u32 {
    !crc_register(data)
}

/// `crc32fast::hash`: the CRC-32 (IEEE) checksum of the bytes.
#[verifier::external_body]
fn crc32_hash(data: &[u8]) -> (r: u32)
    ensures
        r == crc32(data@),
{
    crc32fast::hash(data)
}

/// The checksum of a backed-up file's bytes: their CRC-32 in eight
/// lower-case hexadecimal digits.
pub fn checksum_hex(data: &[u8]) -> (r: String)
    ensures
        r@ == hex_digits(crc32(data@) as u64, 8),
{
    let c = crc32_hash(data);
    let mut s = String::new();
    append_hex(&mut s, c as u64, 8);
    proof { assert(Seq::<char>::empty() + hex_digits(c as u64, 8) =~= hex_digits(c as u64, 8)); }
    s
}

/// The kind of a backup by its manifest: full where it names no
/// incremental backups.
pub fn backup_type_of(incremental_backups: &Vec<String>) -> (r: BackupType)
    ensures
        r == (if incremental_backups@.len() == 0 { BackupType::Full } else { BackupType::Incremental }),
{
    if incremental_backups.len() == 0 { BackupType::Full } else { BackupType::Incremental }
}

/// The backups of a kind beyond the first `keep` of that kind, in order.
pub open spec fn beyond(s: Seq<(Seq<char>, BackupType)>, kind: BackupType, keep: nat) -> Seq<Seq<char>>
    decreases s.len(),
{
    if s.len() == 0 {
        Seq::empty()
    } else if s[0].1 == kind {
        if keep > 0 {
            beyond(s.drop_first(), kind, (keep - 1) as nat)
        } else {
            seq![s[0].0] + beyond(s.drop_first(), kind, 0)
        }
    } else {
        beyond(s.drop_first(), kind, keep)
    }
}

/// The ids and kinds of backups.
pub open spec fn kinds_view(v: Seq<(String, BackupType)>) -> Seq<(Seq<char>, BackupType)> {
    v.map_values(|b: (String, BackupType)| (b.0@, b.1))
}

fn beyond_of(backups: &Vec<(String, BackupType)>, kind: BackupType, keep: usize) -> (r: Vec<String>)
    ensures
        strings(r@) == beyond(kinds_view(backups@), kind, keep as nat),
{
    let mut out: Vec<String> = Vec::new();
    let mut seen: usize = 0;
    let mut i: usize = 0;
    proof { assert(kinds_view(backups@).skip(0) =~= kinds_view(backups@)); }
    while i < backups.len()
        invariant
            i <= backups@.len(),
            seen <= keep,
            strings(out@) + beyond(kinds_view(backups@).skip(i as int), kind, (keep - seen) as nat)
                == beyond(kinds_view(backups@), kind, keep as nat),
        decreases backups@.len() - i,
    {
        let ghost acc = strings(out@);
        proof {
            let t = kinds_view(backups@).skip(i as int);
            assert(t.drop_first() =~= kinds_view(backups@).skip(i + 1));
            assert(t[0] == (backups@[i as int].0@, backups@[i as int].1));
        }
        if backups[i].1 == kind {
            if seen < keep {
                seen = seen + 1;
            } else {
                let id = backups[i].0.clone();
                proof {
                    assert(strings(out@.push(id)) =~= acc.push(id@));
                    assert(acc.push(id@) + beyond(kinds_view(backups@).skip(i + 1), kind, 0)
                        =~= acc + (seq![id@] + beyond(kinds_view(backups@).skip(i + 1), kind, 0)));
                }
                out.push(id);
            }
        }
        i = i + 1;
    }
    proof {
        assert(kinds_view(backups@).skip(i as int) =~= Seq::<(Seq<char>, BackupType)>::empty());
        assert(strings(out@) + Seq::<Seq<char>>::empty() =~= strings(out@));
    }
    out
}

/// The backups that a cleanup removes, from the list newest first: the
/// full ones past the limit of full backups, then the incremental ones past
/// theirs.
pub fn backups_to_remove(backups: &Vec<(String, BackupType)>, max_full: usize, max_incremental: usize) -> (r: Vec<String>)
    ensures
        strings(r@) == beyond(kinds_view(backups@), BackupType::Full, max_full as nat)
            + beyond(kinds_view(backups@), BackupType::Incremental, max_incremental as nat),
{
    let mut full = beyond_of(backups, BackupType::Full, max_full);
    let incr = beyond_of(backups, BackupType::Incremental, max_incremental);
    let mut j: usize = 0;
    let ghost f0 = strings(full@);
    while j < incr.len()
        invariant
            j <= incr@.len(),
            strings(full@) == f0 + strings(incr@).take(j as int),
        decreases incr@.len() - j,
    {
        let x = incr[j].clone();
        proof {
            assert(strings(full@.push(x)) =~= strings(full@).push(x@));
            assert(strings(incr@).take(j + 1) =~= strings(incr@).take(j as int).push(x@));
        }
        full.push(x);
        j = j + 1;
    }
    proof { assert(strings(incr@).take(incr@.len() as int) =~= strings(incr@)); }
    full
}

} // verus!
