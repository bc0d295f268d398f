//! Backup naming: the backup-mode flag with its aliases, its canonical
//! form, and the choice of a backup file name next to a destination that
//! is about to be overwritten.

use vstd::prelude::*;

use crate::util::dec_digits;
use crate::util::push_dec;

verus! {

/// The backup-mode flag as the command line offers it, aliases included.
#[derive(Debug, Clone, Copy, PartialEq, Eq, Structural)]
pub enum Choice {
    /// Never make backups.
    Off,
    /// Make numbered backups.
    Numbered,
    /// Alias of `Numbered`.
    T,
    /// Make numbered backups when numbered ones exist, else simple ones.
    Existing,
    /// Alias of `Existing`.
    Nil,
    /// Always make simple backups.
    Simple,
    /// Alias of `Simple`.
    Never,
}

/// The canonical backup modes the aliases collapse into.
#[derive(Debug, Clone, Copy, PartialEq, Eq, Structural)]
pub enum BackupMode {
    /// No backup is made.
    Never,
    Simple,
    Numbered,
    Existing,
}

impl Choice {
    /// Collapses the flag and its aliases into the canonical mode.
    pub fn canonical(&self) -> (r: BackupMode)
        ensures
            r == match *self {
                Choice::Off => BackupMode::Never,
                Choice::Numbered => BackupMode::Numbered,
                Choice::T => BackupMode::Numbered,
                Choice::Existing => BackupMode::Existing,
                Choice::Nil => BackupMode::Existing,
                Choice::Simple => BackupMode::Simple,
                Choice::Never => BackupMode::Simple,
            },
    {
        match *self {
            Choice::Off => BackupMode::Never,
            Choice::Numbered | Choice::T => BackupMode::Numbered,
            Choice::Existing | Choice::Nil => BackupMode::Existing,
            Choice::Simple | Choice::Never => BackupMode::Simple,
        }
    }
}

/// The plain backup name: the destination with the suffix appended.
pub open spec fn plain_backup(dest: Seq<char>, suffix: Seq<char>) -> Seq<char> {
    dest + suffix
}

/// The numbered backup name for one number.
pub open spec fn numbered_backup(dest: Seq<char>, suffix: Seq<char>, i: nat) -> Seq<char> {
    dest + suffix + dec_digits(i)
}

/// Whether a name is among the existing ones.
pub open spec fn holds_name(existing: Seq<String>, s: Seq<char>) -> bool {
    exists|k: int| 0 <= k < existing.len() && existing[k]@ == s
}

/// Whether a name is among the existing ones.
fn contains_name(existing: &Vec<String>, s: &String) -> (r: bool)
    ensures
        r == holds_name(existing@, s@),
{
    let mut i: usize = 0;
    while i < existing.len()
        invariant
            i <= existing@.len(),
            forall|k: int| 0 <= k < i ==> existing@[k]@ != s@,
        decreases existing@.len() - i,
    {
        if existing[i].eq(s) {
            return true;
        }
        i = i + 1;
    }
    false
}

/// What a numbered search yields: the first number, up to one past the
/// count of existing names, whose candidate is free.
pub open spec fn numbered_result_ok(
    dest: Seq<char>,
    suffix: Seq<char>,
    existing: Seq<String>,
    c: Seq<char>,
) -> bool {
    exists|i: nat|
        i <= existing.len() && c == numbered_backup(dest, suffix, i) && !holds_name(existing, c)
            && (forall|j: nat|
            j < i ==> holds_name(existing, #[trigger] numbered_backup(dest, suffix, j)))
}

/// Picks the first free numbered backup name, trying one number more than
/// there are existing names.
fn numbered_destination(dest: &str, suffix: &str, existing: &Vec<String>) -> (r: Option<String>)
    ensures
        r matches Some(c) ==> numbered_result_ok(dest@, suffix@, existing@, c@),
        r is None ==> forall|i: nat|
            i <= existing@.len() ==> holds_name(
                existing@,
                #[trigger] numbered_backup(dest@, suffix@, i),
            ),
{
    let bound = existing.len();
    let mut i: usize = 0;
    while i <= bound
        invariant
            i <= bound,
            bound == existing@.len(),
            forall|j: nat|
                j < i ==> holds_name(existing@, #[trigger] numbered_backup(dest@, suffix@, j)),
        decreases bound - i,
    {
        let mut cand = dest.to_owned();
        cand.append(suffix);
        push_dec(i as u64, &mut cand);
        proof {
            assert(cand@ =~= numbered_backup(dest@, suffix@, i as nat));
        }
        if !contains_name(existing, &cand) {
            return Some(cand);
        }
        if i == bound {
            proof {
                assert(forall|j: nat|
                    j <= existing@.len() ==> holds_name(
                        existing@,
                        #[trigger] numbered_backup(dest@, suffix@, j),
                    ));
            }
            return None;
        }
        i = i + 1;
    }
    None
}

/// Chooses the backup name for a destination that is about to be
/// overwritten, given the names that already exist beside it: none in the
/// never mode; the suffixed name in the simple mode; the first free
/// numbered name in the numbered mode; and in the existing mode the
/// suffixed name when it is free, else the first free numbered name.  The
/// numbered search tries one number more than there are existing names,
/// and reports failure if every one of those is taken.
pub fn backup_destination(
    dest: &str,
    suffix: &str,
    mode: BackupMode,
    existing: &Vec<String>,
) -> (r: Option<String>)
    ensures
        mode is Never ==> r is None,
        mode is Simple ==> (r matches Some(c) && c@ == plain_backup(dest@, suffix@)),
        mode is Numbered ==> match r {
            Some(c) => numbered_result_ok(dest@, suffix@, existing@, c@),
            None => forall|i: nat|
                i <= existing@.len() ==> holds_name(
                    existing@,
                    #[trigger] numbered_backup(dest@, suffix@, i),
                ),
        },
        mode is Existing ==> ({
            if !holds_name(existing@, plain_backup(dest@, suffix@)) {
                r matches Some(c) && c@ == plain_backup(dest@, suffix@)
            } else {
                match r {
                    Some(c) => numbered_result_ok(dest@, suffix@, existing@, c@),
                    None => forall|i: nat|
                        i <= existing@.len() ==> holds_name(
                            existing@,
                            #[trigger] numbered_backup(dest@, suffix@, i),
                        ),
                }
            }
        }),
{
    match mode {
        BackupMode::Never => None,
        BackupMode::Simple => {
            let mut c = dest.to_owned();
            c.append(suffix);
            Some(c)
        },
        BackupMode::Numbered => numbered_destination(dest, suffix, existing),
        BackupMode::Existing => {
            let mut c = dest.to_owned();
            c.append(suffix);
            if !contains_name(existing, &c) {
                Some(c)
            } else {
                numbered_destination(dest, suffix, existing)
            }
        },
    }
}

} // verus!
