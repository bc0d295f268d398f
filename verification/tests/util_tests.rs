//! The helpers on concrete values: caret escaping, slash handling, the
//! owner-and-group split, the permission-string renderers, backup naming,
//! and the prompt gate helpers.

use blutils::backup::backup_destination;
use blutils::backup::BackupMode;
use blutils::backup::Choice;
use blutils::gate::evaluate_gate;
use blutils::gate::prompt_once_needed;
use blutils::gate::write_protection;
use blutils::gate::DestructiveConfig;
use blutils::gate::GateDecision;
use blutils::gate::When;
use blutils::perm::Mode;
use blutils::perm::ModeWrapper;
use blutils::util::c_escape;
use blutils::util::ends;
use blutils::util::format_bytes;
use blutils::util::get_perms;
use blutils::util::libc_wrap;
use blutils::util::numbering;
use blutils::util::owner_token;
use blutils::util::slashes;
use blutils::util::squeeze_blank;
use blutils::util::tabs;
use blutils::util::OwnerToken;

#[test]
fn printable_text_passes_through_caret_escaping() {
    assert_eq!(c_escape("hello world".to_string(), false), "hello world");
    assert_eq!(c_escape("a\nb".to_string(), false), "a\nb");
}

#[test]
fn control_codes_become_caret_pairs() {
    assert_eq!(c_escape("\u{1}".to_string(), false), "^A");
    assert_eq!(c_escape("\u{1b}".to_string(), false), "^[");
    assert_eq!(c_escape("\u{7f}".to_string(), false), "^?");
}

#[test]
fn tabs_survive_unless_shown() {
    assert_eq!(c_escape("a\tb".to_string(), false), "a\tb");
    assert_eq!(c_escape("a\tb".to_string(), true), "a^Ib");
}

#[test]
fn high_bytes_get_the_meta_prefix() {
    // 0xa9: at least 0xa0, so the escaped byte is 0xa9 - 0x80 = ')'.
    assert_eq!(c_escape("\u{a9}".to_string(), false), "M-)");
    // 0x85: below 0xa0, so caret notation on 0x85 - 0x80 + 0x40 = 'E'.
    assert_eq!(c_escape("\u{85}".to_string(), false), "M-^E");
    // 0xff renders as the meta delete character.
    assert_eq!(c_escape("\u{ff}".to_string(), false), "M-^?");
}

#[test]
fn tabs_and_ends_transforms() {
    assert_eq!(tabs(true, "a\tb".to_string()), "a^Ib");
    assert_eq!(tabs(false, "a\tb".to_string()), "a\tb");
    assert_eq!(ends(true, "a\nb".to_string()), "a$\nb$\n");
    assert_eq!(ends(true, String::new()), "$\n");
    assert_eq!(ends(false, "a\nb".to_string()), "a\nb");
}

#[test]
fn libc_wrap_splits_on_sign() {
    assert_eq!(libc_wrap(5), Ok(5));
    assert_eq!(libc_wrap(0), Ok(0));
    assert_eq!(libc_wrap(-1), Err(-1));
}

#[test]
fn format_bytes_rounds_up_to_kibibytes() {
    assert_eq!(format_bytes(0), 0);
    assert_eq!(format_bytes(1), 1);
    assert_eq!(format_bytes(1024), 1);
    assert_eq!(format_bytes(1025), 2);
    assert_eq!(format_bytes(4096), 4);
}

#[test]
fn slashes_strips_or_appends() {
    assert_eq!(slashes(true, false, "a/b//"), "a/b");
    assert_eq!(slashes(true, false, "a"), "a");
    assert_eq!(slashes(true, false, "///"), "");
    assert_eq!(slashes(false, true, "a"), "a/");
    assert_eq!(slashes(false, true, "a/"), "a/");
    assert_eq!(slashes(false, false, "a//"), "a//");
    // Stripping wins over the directory slash.
    assert_eq!(slashes(true, true, "a/"), "a");
}

#[test]
fn owner_group_arguments_split_at_the_first_colon() {
    let p = get_perms("root:wheel");
    assert_eq!(p.owner, "root");
    assert_eq!(p.group, "wheel");
    let p = get_perms("root");
    assert_eq!(p.owner, "root");
    assert_eq!(p.group, "_");
    let p = get_perms("a:b:c");
    assert_eq!(p.owner, "a");
    assert_eq!(p.group, "b:c");
    let p = get_perms(":wheel");
    assert_eq!(p.owner, "");
    assert_eq!(p.group, "wheel");
}

#[test]
fn owner_tokens_classify_ids_names_and_underscores() {
    assert_eq!(owner_token("_"), OwnerToken::Unchanged);
    assert_eq!(owner_token("0"), OwnerToken::Numeric(0));
    assert_eq!(owner_token("1000"), OwnerToken::Numeric(1000));
    assert_eq!(owner_token("4294967295"), OwnerToken::Numeric(u32::MAX));
    assert_eq!(owner_token("4294967296"), OwnerToken::Name);
    assert_eq!(owner_token("root"), OwnerToken::Name);
    assert_eq!(owner_token(""), OwnerToken::Name);
    assert_eq!(owner_token("12a"), OwnerToken::Name);
}

#[test]
fn permission_strings_render_triples() {
    let all = Mode { read: true, write: true, execute: true };
    assert_eq!(all.to_string(), "rwx");
    let none = Mode { read: false, write: false, execute: false };
    assert_eq!(none.to_string(), "---");
    let ro = Mode { read: true, write: false, execute: false };
    assert_eq!(ro.to_string(), "r--");
}

#[test]
fn mode_wrappers_decode_raw_bits() {
    assert_eq!(ModeWrapper::from_bits(0o644).to_string(), "-rw-r--r--");
    assert_eq!(ModeWrapper::from_bits(0o1755).to_string(), "drwxr-xr-x");
    assert_eq!(ModeWrapper::from_bits(0o000).to_string(), "----------");
}

#[test]
fn backup_choices_collapse_to_canonical_modes() {
    assert_eq!(Choice::Off.canonical(), BackupMode::Never);
    assert_eq!(Choice::Numbered.canonical(), BackupMode::Numbered);
    assert_eq!(Choice::T.canonical(), BackupMode::Numbered);
    assert_eq!(Choice::Existing.canonical(), BackupMode::Existing);
    assert_eq!(Choice::Nil.canonical(), BackupMode::Existing);
    assert_eq!(Choice::Simple.canonical(), BackupMode::Simple);
    assert_eq!(Choice::Never.canonical(), BackupMode::Simple);
}

#[test]
fn backup_names_follow_the_mode() {
    let none: Vec<String> = vec![];
    assert_eq!(backup_destination("f", "~", BackupMode::Never, &none), None);
    assert_eq!(
        backup_destination("f", "~", BackupMode::Simple, &none),
        Some("f~".to_string())
    );
    assert_eq!(
        backup_destination("f", "~", BackupMode::Numbered, &none),
        Some("f~0".to_string())
    );
    let taken = vec!["f~0".to_string(), "f~1".to_string()];
    assert_eq!(
        backup_destination("f", "~", BackupMode::Numbered, &taken),
        Some("f~2".to_string())
    );
    assert_eq!(
        backup_destination("f", "~", BackupMode::Existing, &none),
        Some("f~".to_string())
    );
    let plain_taken = vec!["f~".to_string()];
    assert_eq!(
        backup_destination("f", "~", BackupMode::Existing, &plain_taken),
        Some("f~0".to_string())
    );
}

#[test]
fn gate_decisions_on_the_flag_table() {
    let quiet = DestructiveConfig {
        force: false,
        interactive: false,
        interactive_once: false,
        no_clobber: false,
        interactive_when: None,
    };
    assert_eq!(evaluate_gate(&quiet, true, false), GateDecision::Proceed);
    let mut cfg = quiet;
    cfg.no_clobber = true;
    assert_eq!(evaluate_gate(&cfg, true, false), GateDecision::Refuse);
    assert_eq!(evaluate_gate(&cfg, false, false), GateDecision::Proceed);
    let mut cfg = quiet;
    cfg.interactive = true;
    assert_eq!(evaluate_gate(&cfg, true, false), GateDecision::Prompt);
    assert_eq!(evaluate_gate(&cfg, false, false), GateDecision::Proceed);
    let mut cfg = quiet;
    cfg.interactive_when = Some(When::Always);
    assert_eq!(evaluate_gate(&cfg, true, false), GateDecision::Prompt);
    let mut cfg = quiet;
    cfg.force = true;
    cfg.no_clobber = true;
    assert_eq!(evaluate_gate(&cfg, true, true), GateDecision::Proceed);
    assert_eq!(evaluate_gate(&quiet, true, true), GateDecision::Prompt);
}

#[test]
fn the_one_time_prompt_fires_on_bulk_removals() {
    let mut cfg = DestructiveConfig {
        force: false,
        interactive: false,
        interactive_once: true,
        no_clobber: false,
        interactive_when: None,
    };
    assert!(prompt_once_needed(&cfg, 3, false));
    assert!(prompt_once_needed(&cfg, 1, true));
    assert!(!prompt_once_needed(&cfg, 2, false));
    cfg.interactive_once = false;
    assert!(!prompt_once_needed(&cfg, 5, true));
    cfg.interactive_when = Some(When::Once);
    assert!(prompt_once_needed(&cfg, 5, false));
}

#[test]
fn write_protection_reads_the_owner_write_bit() {
    assert!(write_protection(0o444));
    assert!(!write_protection(0o644));
    assert!(write_protection(0o000));
}

#[test]
fn blank_lines_are_squeezed() {
    assert_eq!(squeeze_blank(true, "a\n\nb\n".to_string()), "a\nb\n");
    assert_eq!(squeeze_blank(true, " \t\nx\n  \n".to_string()), "x\n");
    assert_eq!(squeeze_blank(true, "\n\n\n".to_string()), "");
    assert_eq!(squeeze_blank(true, "no newline".to_string()), "no newline");
    assert_eq!(squeeze_blank(false, "a\n\nb".to_string()), "a\n\nb");
}

#[test]
fn lines_are_numbered_from_zero() {
    assert_eq!(numbering(true, false, "a\nb".to_string()), " 0 | a\n 1 | b");
    assert_eq!(numbering(false, false, "a\nb".to_string()), "a\nb");
    // The nonblank variant skips blank lines and leaves their column
    // empty.
    assert_eq!(numbering(false, true, "a\n\nb".to_string()), " 0 | a\n   | \n 1 | b");
    // Eleven lines widen the column to two digits.
    let contents = "x\n".repeat(11);
    let numbered = numbering(true, false, contents);
    assert!(numbered.starts_with(" 0  | x\n"));
    assert!(numbered.contains(" 10 | x\n"));
}
