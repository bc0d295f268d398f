//! The symbolic-mode expression engine: parsing of `chmod`-style mode
//! strings (octal literals and `[ugoa]*[+-=][rwxXst]*` clauses, including
//! copy-from-class letters) and the evaluation of a parsed expression
//! against an existing permission bit-set.

use vstd::prelude::*;

use crate::perm::has_bits;
use crate::perm::Mode;
use crate::perm::MODE_MASK;
use crate::perm::S_IRGRP;
use crate::perm::S_IROTH;
use crate::perm::S_IRUSR;
use crate::perm::S_ISGID;
use crate::perm::S_ISUID;
use crate::perm::S_ISVTX;
use crate::perm::S_IWGRP;
use crate::perm::S_IWOTH;
use crate::perm::S_IWUSR;
use crate::perm::S_IXGRP;
use crate::perm::S_IXOTH;
use crate::perm::S_IXUSR;
use crate::util::chars_of;

verus! {

/// Why a mode string was rejected.
#[derive(Debug, Clone, Copy, PartialEq, Eq, Structural)]
pub enum ModeParseError {
    /// The string is not an octal literal and holds no operator, or more
    /// than one.
    InvalidOperator,
    /// A character before the operator is not one of `u`, `g`, `o`, `a`.
    InvalidClass,
    /// A character after the operator is not a permission token, or a
    /// second copy-from-class letter appears.
    InvalidPermission,
}

/// The one operator of a symbolic clause.
#[derive(Debug, Clone, Copy, PartialEq, Eq, Structural)]
pub enum Operator {
    Add,
    Remove,
    Assign,
}

/// The class whose current bits a copy-from-class token reads.
#[derive(Debug, Clone, Copy, PartialEq, Eq, Structural)]
pub enum CopyClass {
    User,
    Group,
    Other,
}

/// Which permission classes a clause targets.  An empty prefix is recorded
/// as `all`, the documented reading of a bare operator here (strict POSIX
/// would consult the umask instead).
#[derive(Debug, Clone, Copy, PartialEq, Eq, Structural)]
pub struct ClassSet {
    pub user: bool,
    pub group: bool,
    pub other: bool,
    pub all: bool,
}

impl ClassSet {
    /// The user class is targeted, directly or through `a`.
    pub open spec fn targets_user(self) -> bool {
        self.user || self.all
    }

    /// The group class is targeted, directly or through `a`.
    pub open spec fn targets_group(self) -> bool {
        self.group || self.all
    }

    /// The other class is targeted, directly or through `a`.
    pub open spec fn targets_other(self) -> bool {
        self.other || self.all
    }

    /// At least one class is targeted.
    pub open spec fn nonempty(self) -> bool {
        self.user || self.group || self.other || self.all
    }
}

/// The literal permission tokens of a clause.
#[derive(Debug, Clone, Copy, PartialEq, Eq, Structural)]
pub struct PermSet {
    pub read: bool,
    pub write: bool,
    pub execute: bool,
    /// The `X` token: execute, but only when some execute bit is already
    /// set on the current mode.
    pub execute_if_any: bool,
    /// The `s` token: set-user-id or set-group-id, by targeted class.
    pub setid: bool,
    /// The `t` token: the sticky bit.
    pub sticky: bool,
}

/// One parsed symbolic clause.
#[derive(Debug, Clone, Copy, PartialEq, Eq, Structural)]
pub struct Symbolic {
    pub classes: ClassSet,
    pub op: Operator,
    pub perms: PermSet,
    /// When present, the clause copies the referenced class's current
    /// read/write/execute bits and the literal tokens are ignored.
    pub copy_from: Option<CopyClass>,
}

/// A parsed mode expression: an absolute octal literal or a symbolic
/// clause.
#[derive(Debug, Clone, Copy, PartialEq, Eq, Structural)]
pub enum ModeExpression {
    Octal(u32),
    Symbolic(Symbolic),
}

impl ModeExpression {
    /// What parsing guarantees of every expression it produces: an octal
    /// literal fits in the twelve mode bits, and a symbolic clause targets
    /// at least one class.
    pub open spec fn wf(self) -> bool {
        match self {
            ModeExpression::Octal(v) => v <= MODE_MASK,
            ModeExpression::Symbolic(sym) => sym.classes.nonempty(),
        }
    }
}

/// An octal digit.
pub open spec fn is_octal_digit(c: char) -> bool {
    48 <= c as u32 && c as u32 <= 55
}

/// The numeric value of an octal digit.
pub open spec fn octal_digit_val(c: char) -> int {
    c as u32 - 48
}

/// A non-empty string of octal digits.
pub open spec fn octal_string(s: Seq<char>) -> bool {
    s.len() > 0 && forall|i: int| 0 <= i < s.len() ==> is_octal_digit(#[trigger] s[i])
}

/// The mode named by an octal literal, masked to the twelve mode bits at
/// every step.
pub open spec fn octal_mode_value(s: Seq<char>) -> u32
    decreases s.len(),
{
    if s.len() == 0 {
        0u32
    } else {
        (((octal_mode_value(s.drop_last()) * 8 + octal_digit_val(s.last())) % 4096) as u32)
    }
}

/// The plain radix-8 reading of a digit string, without any masking.
pub open spec fn plain_octal_value(s: Seq<char>) -> int
    decreases s.len(),
{
    if s.len() == 0 {
        0
    } else {
        plain_octal_value(s.drop_last()) * 8 + octal_digit_val(s.last())
    }
}

/// An operator character.
pub open spec fn is_op_char(c: char) -> bool {
    c == '+' || c == '-' || c == '='
}

/// How many operator characters the string holds.
pub open spec fn op_count(s: Seq<char>) -> int
    decreases s.len(),
{
    if s.len() == 0 {
        0
    } else {
        op_count(s.drop_last()) + if is_op_char(s.last()) {
            1int
        } else {
            0int
        }
    }
}

/// The index of the first operator character, or the length when there is
/// none.
pub open spec fn find_op(s: Seq<char>) -> int
    decreases s.len(),
{
    if s.len() == 0 {
        0
    } else if is_op_char(s.first()) {
        0
    } else {
        1 + find_op(s.drop_first())
    }
}

/// A class prefix character.
pub open spec fn is_class_char(c: char) -> bool {
    c == 'u' || c == 'g' || c == 'o' || c == 'a'
}

/// Every character of the prefix names a class.
pub open spec fn classes_ok(s: Seq<char>) -> bool {
    forall|i: int| 0 <= i < s.len() ==> is_class_char(#[trigger] s[i])
}

/// The class flags named by a prefix.
pub open spec fn classes_of(s: Seq<char>) -> ClassSet
    decreases s.len(),
{
    if s.len() == 0 {
        ClassSet { user: false, group: false, other: false, all: false }
    } else {
        let c = classes_of(s.drop_last());
        let ch = s.last();
        ClassSet {
            user: c.user || ch == 'u',
            group: c.group || ch == 'g',
            other: c.other || ch == 'o',
            all: c.all || ch == 'a',
        }
    }
}

/// The classes a clause targets: what the prefix names, or every class for
/// an empty prefix.
pub open spec fn effective_classes(prefix: Seq<char>) -> ClassSet {
    if prefix.len() == 0 {
        ClassSet { user: false, group: false, other: false, all: true }
    } else {
        classes_of(prefix)
    }
}

/// A copy-from-class letter in the permission position.
pub open spec fn is_copy_char(c: char) -> bool {
    c == 'u' || c == 'g' || c == 'o'
}

/// A permission-position character.
pub open spec fn is_perm_char(c: char) -> bool {
    c == 'r' || c == 'w' || c == 'x' || c == 'X' || c == 't' || c == 's' || is_copy_char(c)
}

/// Every character of the suffix is a permission token.
pub open spec fn perms_ok(s: Seq<char>) -> bool {
    forall|i: int| 0 <= i < s.len() ==> is_perm_char(#[trigger] s[i])
}

/// How many copy-from-class letters the suffix holds.
pub open spec fn copy_count(s: Seq<char>) -> int
    decreases s.len(),
{
    if s.len() == 0 {
        0
    } else {
        copy_count(s.drop_last()) + if is_copy_char(s.last()) {
            1int
        } else {
            0int
        }
    }
}

/// The literal tokens named by a suffix.
pub open spec fn perms_of(s: Seq<char>) -> PermSet
    decreases s.len(),
{
    if s.len() == 0 {
        PermSet {
            read: false,
            write: false,
            execute: false,
            execute_if_any: false,
            setid: false,
            sticky: false,
        }
    } else {
        let p = perms_of(s.drop_last());
        let ch = s.last();
        PermSet {
            read: p.read || ch == 'r',
            write: p.write || ch == 'w',
            execute: p.execute || ch == 'x',
            execute_if_any: p.execute_if_any || ch == 'X',
            setid: p.setid || ch == 's',
            sticky: p.sticky || ch == 't',
        }
    }
}

/// The copy-from-class token of a suffix, when one is present.
pub open spec fn copy_of(s: Seq<char>) -> Option<CopyClass> {
    if s.contains('u') {
        Some(CopyClass::User)
    } else if s.contains('g') {
        Some(CopyClass::Group)
    } else if s.contains('o') {
        Some(CopyClass::Other)
    } else {
        None
    }
}

/// The operator named by its character.
pub open spec fn op_of_char(c: char) -> Operator {
    if c == '+' {
        Operator::Add
    } else if c == '-' {
        Operator::Remove
    } else {
        Operator::Assign
    }
}

/// What parsing a mode string yields.  An all-octal-digit string is an
/// absolute literal; otherwise the string must hold exactly one operator,
/// only class letters before it, only permission tokens after it, and at
/// most one copy-from-class letter.
pub open spec fn spec_parse(s: Seq<char>) -> Result<ModeExpression, ModeParseError> {
    if octal_string(s) {
        Ok(ModeExpression::Octal(octal_mode_value(s)))
    } else if op_count(s) != 1 {
        Err(ModeParseError::InvalidOperator)
    } else {
        let i = find_op(s);
        let prefix = s.take(i);
        let suffix = s.skip(i + 1);
        if !classes_ok(prefix) {
            Err(ModeParseError::InvalidClass)
        } else if copy_count(suffix) >= 2 {
            Err(ModeParseError::InvalidPermission)
        } else if !perms_ok(suffix) {
            Err(ModeParseError::InvalidPermission)
        } else {
            Ok(
                ModeExpression::Symbolic(
                    Symbolic {
                        classes: effective_classes(prefix),
                        op: op_of_char(s[i]),
                        perms: perms_of(suffix),
                        copy_from: copy_of(suffix),
                    },
                ),
            )
        }
    }
}

/// A prefix of class letters names at least one class.
proof fn lemma_classes_of_nonempty(s: Seq<char>)
    requires
        s.len() > 0,
        classes_ok(s),
    ensures
        classes_of(s).nonempty(),
    decreases s.len(),
{
    if s.len() == 1 {
        assert(is_class_char(s.last()));
    } else {
        assert(classes_ok(s.drop_last())) by {
            assert(forall|i: int|
                0 <= i < s.len() - 1 ==> #[trigger] s.drop_last()[i] == s[i]);
        }
        lemma_classes_of_nonempty(s.drop_last());
    }
}

/// Copy-letter counts are never negative.
proof fn lemma_copy_count_nonneg(s: Seq<char>)
    ensures
        copy_count(s) >= 0,
    decreases s.len(),
{
    if s.len() > 0 {
        lemma_copy_count_nonneg(s.drop_last());
    }
}

/// A prefix holds no more copy letters than the whole string.
proof fn lemma_copy_count_take_le(s: Seq<char>, k: int)
    requires
        0 <= k <= s.len(),
    ensures
        copy_count(s.take(k)) <= copy_count(s),
    decreases s.len() - k,
{
    if k == s.len() {
        assert(s.take(k) =~= s);
    } else {
        assert(s.take(k + 1).drop_last() =~= s.take(k));
        lemma_copy_count_take_le(s, k + 1);
    }
}

/// A string without copy letters contains none of them.
proof fn lemma_copy_count_zero(s: Seq<char>)
    requires
        copy_count(s) == 0,
    ensures
        !s.contains('u'),
        !s.contains('g'),
        !s.contains('o'),
    decreases s.len(),
{
    if s.len() > 0 {
        lemma_copy_count_nonneg(s.drop_last());
        assert(!is_copy_char(s.last()));
        lemma_copy_count_zero(s.drop_last());
        assert(forall|i: int|
            0 <= i < s.len() - 1 ==> #[trigger] s[i] == s.drop_last()[i]);
        assert forall|i: int| 0 <= i < s.len() implies s[i] != 'u' && s[i] != 'g' && s[i]
            != 'o' by {
            if i < s.len() - 1 {
                assert(s.drop_last()[i] == s[i]);
                assert(!s.drop_last().contains('u'));
                if s[i] == 'u' || s[i] == 'g' || s[i] == 'o' {
                    assert(s.drop_last().contains(s[i]));
                }
            }
        }
    }
}

/// The first operator really is where a left-to-right scan stops.
proof fn lemma_find_op_at(s: Seq<char>, i: int)
    requires
        0 <= i < s.len(),
        is_op_char(s[i]),
        forall|j: int| 0 <= j < i ==> !is_op_char(#[trigger] s[j]),
    ensures
        find_op(s) == i,
    decreases i,
{
    if i == 0 {
    } else {
        assert(!is_op_char(s.first()));
        assert(s.drop_first()[i - 1] == s[i]);
        assert(forall|j: int|
            0 <= j < i - 1 ==> #[trigger] s.drop_first()[j] == s[j + 1]);
        lemma_find_op_at(s.drop_first(), i - 1);
    }
}


/// Recognizes a non-empty octal-digit string and computes its masked value.
fn scan_octal(v: &Vec<char>) -> (r: Option<u32>)
    ensures
        r is Some <==> octal_string(v@),
        r matches Some(x) ==> x == octal_mode_value(v@) && x < 4096,
{
    let n = v.len();
    if n == 0 {
        return None;
    }
    let mut value: u32 = 0;
    let mut i: usize = 0;
    while i < n
        invariant
            i <= n,
            n == v@.len(),
            value == octal_mode_value(v@.take(i as int)),
            value < 4096,
            forall|j: int| 0 <= j < i ==> is_octal_digit(#[trigger] v@[j]),
        decreases n - i,
    {
        let c = v[i];
        let code = c as u32;
        if !(48 <= code && code <= 55) {
            return None;
        }
        proof {
            assert(v@.take(i + 1).drop_last() =~= v@.take(i as int));
            assert(v@.take(i + 1).last() == v@[i as int]);
        }
        value = (value * 8 + (code - 48)) % 4096;
        i = i + 1;
    }
    proof {
        assert(v@.take(n as int) =~= v@);
    }
    Some(value)
}

/// Counts the operator characters and finds the first one.
fn scan_op(v: &Vec<char>) -> (r: (usize, usize))
    ensures
        r.0 == op_count(v@),
        r.0 > 0 ==> r.1 == find_op(v@) && r.1 < v@.len() && is_op_char(v@[r.1 as int]),
{
    let n = v.len();
    let mut count: usize = 0;
    let mut op_idx: usize = 0;
    let mut i: usize = 0;
    while i < n
        invariant
            i <= n,
            n == v@.len(),
            count == op_count(v@.take(i as int)),
            count <= i,
            count > 0 ==> op_idx < i && is_op_char(v@[op_idx as int]) && forall|j: int|
                0 <= j < op_idx ==> !is_op_char(#[trigger] v@[j]),
            count == 0 ==> forall|j: int| 0 <= j < i ==> !is_op_char(#[trigger] v@[j]),
        decreases n - i,
    {
        let c = v[i];
        proof {
            assert(v@.take(i + 1).drop_last() =~= v@.take(i as int));
            assert(v@.take(i + 1).last() == v@[i as int]);
        }
        if c == '+' || c == '-' || c == '=' {
            if count == 0 {
                op_idx = i;
            }
            count = count + 1;
        }
        i = i + 1;
    }
    proof {
        assert(v@.take(n as int) =~= v@);
        if count > 0 {
            lemma_find_op_at(v@, op_idx as int);
        }
    }
    (count, op_idx)
}

/// Checks the class prefix `v[..end]` and folds it into a class set.
fn scan_classes(v: &Vec<char>, end: usize) -> (r: Result<ClassSet, ModeParseError>)
    requires
        end <= v@.len(),
    ensures
        classes_ok(v@.take(end as int)) ==> r == Ok::<ClassSet, ModeParseError>(
            classes_of(v@.take(end as int)),
        ),
        !classes_ok(v@.take(end as int)) ==> r == Err::<ClassSet, ModeParseError>(
            ModeParseError::InvalidClass,
        ),
{
    let ghost prefix = v@.take(end as int);
    let mut cls = ClassSet { user: false, group: false, other: false, all: false };
    let mut i: usize = 0;
    while i < end
        invariant
            i <= end <= v@.len(),
            prefix == v@.take(end as int),
            forall|j: int| 0 <= j < i ==> is_class_char(#[trigger] prefix[j]),
            cls == classes_of(prefix.take(i as int)),
        decreases end - i,
    {
        let c = v[i];
        proof {
            assert(prefix[i as int] == v@[i as int]);
            assert(prefix.take(i + 1).drop_last() =~= prefix.take(i as int));
            assert(prefix.take(i + 1).last() == prefix[i as int]);
        }
        if c == 'u' {
            cls = ClassSet { user: true, ..cls };
        } else if c == 'g' {
            cls = ClassSet { group: true, ..cls };
        } else if c == 'o' {
            cls = ClassSet { other: true, ..cls };
        } else if c == 'a' {
            cls = ClassSet { all: true, ..cls };
        } else {
            proof {
                assert(!is_class_char(prefix[i as int]));
            }
            return Err(ModeParseError::InvalidClass);
        }
        i = i + 1;
    }
    proof {
        assert(prefix.take(end as int) =~= prefix);
    }
    Ok(cls)
}

/// Checks the permission suffix `v[start..]` and folds it into the literal
/// tokens and the optional copy-from-class token.
fn scan_perms(v: &Vec<char>, start: usize) -> (r: Result<
    (PermSet, Option<CopyClass>),
    ModeParseError,
>)
    requires
        start <= v@.len(),
    ensures
        ({
            let suffix = v@.skip(start as int);
            &&& (copy_count(suffix) >= 2 ==> r == Err::<
                (PermSet, Option<CopyClass>),
                ModeParseError,
            >(ModeParseError::InvalidPermission))
            &&& (copy_count(suffix) < 2 && !perms_ok(suffix) ==> r == Err::<
                (PermSet, Option<CopyClass>),
                ModeParseError,
            >(ModeParseError::InvalidPermission))
            &&& (copy_count(suffix) < 2 && perms_ok(suffix) ==> r == Ok::<
                (PermSet, Option<CopyClass>),
                ModeParseError,
            >((perms_of(suffix), copy_of(suffix))))
        }),
{
    let ghost suffix = v@.skip(start as int);
    let n = v.len();
    let mut copies: usize = 0;
    let mut copy_from: Option<CopyClass> = None;
    let mut perms = PermSet {
        read: false,
        write: false,
        execute: false,
        execute_if_any: false,
        setid: false,
        sticky: false,
    };
    let mut i: usize = start;
    while i < n
        invariant
            start <= i <= n,
            n == v@.len(),
            suffix == v@.skip(start as int),
            suffix =~= v@.subrange(start as int, n as int),
            forall|j: int| start <= j < i ==> is_perm_char(#[trigger] v@[j]),
            copies == copy_count(v@.subrange(start as int, i as int)),
            copies <= 1,
            perms == perms_of(v@.subrange(start as int, i as int)),
            copy_from == copy_of(v@.subrange(start as int, i as int)),
        decreases n - i,
    {
        let c = v[i];
        let ghost pre = v@.subrange(start as int, i as int);
        let ghost post = v@.subrange(start as int, i + 1);
        proof {
            assert(post.drop_last() =~= pre);
            assert(post.last() == v@[i as int]);
        }
        if c == 'u' || c == 'g' || c == 'o' {
            if copies >= 1 {
                proof {
                    assert(copy_count(post) >= 2);
                    assert(suffix.take(i + 1 - start) =~= post);
                    lemma_copy_count_take_le(suffix, i + 1 - start);
                }
                return Err(ModeParseError::InvalidPermission);
            }
            copies = copies + 1;
            copy_from = if c == 'u' {
                Some(CopyClass::User)
            } else if c == 'g' {
                Some(CopyClass::Group)
            } else {
                Some(CopyClass::Other)
            };
            proof {
                lemma_copy_count_zero(pre);
                assert(post.contains(c)) by {
                    assert(post.last() == c);
                }
                assert(forall|j: int|
                    0 <= j < post.len() - 1 ==> #[trigger] post[j] == pre[j]);
                if c == 'g' {
                    assert(!post.contains('u')) by {
                        if post.contains('u') {
                            let k = choose|k: int| 0 <= k < post.len() && post[k] == 'u';
                            assert(pre.contains('u'));
                        }
                    }
                }
                if c == 'o' {
                    assert(!post.contains('u')) by {
                        if post.contains('u') {
                            let k = choose|k: int| 0 <= k < post.len() && post[k] == 'u';
                            assert(pre.contains('u'));
                        }
                    }
                    assert(!post.contains('g')) by {
                        if post.contains('g') {
                            let k = choose|k: int| 0 <= k < post.len() && post[k] == 'g';
                            assert(pre.contains('g'));
                        }
                    }
                }
            }
        } else if c == 'r' || c == 'w' || c == 'x' || c == 'X' || c == 't' || c == 's' {
            perms = PermSet {
                read: perms.read || c == 'r',
                write: perms.write || c == 'w',
                execute: perms.execute || c == 'x',
                execute_if_any: perms.execute_if_any || c == 'X',
                setid: perms.setid || c == 's',
                sticky: perms.sticky || c == 't',
            };
            proof {
                assert(forall|j: int|
                    0 <= j < post.len() - 1 ==> #[trigger] post[j] == pre[j]);
                assert(post.contains('u') == pre.contains('u')) by {
                    if post.contains('u') {
                        let k = choose|k: int| 0 <= k < post.len() && post[k] == 'u';
                        assert(pre.contains('u'));
                    }
                    if pre.contains('u') {
                        let k = choose|k: int| 0 <= k < pre.len() && pre[k] == 'u';
                        assert(post[k] == 'u');
                    }
                }
                assert(post.contains('g') == pre.contains('g')) by {
                    if post.contains('g') {
                        let k = choose|k: int| 0 <= k < post.len() && post[k] == 'g';
                        assert(pre.contains('g'));
                    }
                    if pre.contains('g') {
                        let k = choose|k: int| 0 <= k < pre.len() && pre[k] == 'g';
                        assert(post[k] == 'g');
                    }
                }
                assert(post.contains('o') == pre.contains('o')) by {
                    if post.contains('o') {
                        let k = choose|k: int| 0 <= k < post.len() && post[k] == 'o';
                        assert(pre.contains('o'));
                    }
                    if pre.contains('o') {
                        let k = choose|k: int| 0 <= k < pre.len() && pre[k] == 'o';
                        assert(post[k] == 'o');
                    }
                }
            }
        } else {
            proof {
                assert(suffix[i - start] == v@[i as int]);
                assert(!is_perm_char(suffix[i - start]));
            }
            return Err(ModeParseError::InvalidPermission);
        }
        i = i + 1;
    }
    proof {
        assert(v@.subrange(start as int, n as int) =~= suffix);
    }
    Ok((perms, copy_from))
}

/// Parses a mode string into an expression, or says why it is rejected.
pub fn parse(s: &str) -> (r: Result<ModeExpression, ModeParseError>)
    ensures
        r == spec_parse(s@),
        r matches Ok(e) ==> e.wf(),
{
    let v = chars_of(s);
    if let Some(x) = scan_octal(&v) {
        return Ok(ModeExpression::Octal(x));
    }
    let (count, op_idx) = scan_op(&v);
    if count != 1 {
        return Err(ModeParseError::InvalidOperator);
    }
    let cls = match scan_classes(&v, op_idx) {
        Ok(c) => c,
        Err(e) => {
            return Err(e);
        },
    };
    let (perms, copy_from) = match scan_perms(&v, op_idx + 1) {
        Ok(p) => p,
        Err(e) => {
            return Err(e);
        },
    };
    let c = v[op_idx];
    let op = if c == '+' {
        Operator::Add
    } else if c == '-' {
        Operator::Remove
    } else {
        Operator::Assign
    };
    let classes = if op_idx == 0 {
        ClassSet { user: false, group: false, other: false, all: true }
    } else {
        cls
    };
    proof {
        if op_idx > 0 {
            lemma_classes_of_nonempty(s@.take(op_idx as int));
        }
    }
    Ok(ModeExpression::Symbolic(Symbolic { classes, op, perms, copy_from }))
}


/// The twelve mode bits as a structured set of flags: the three special
/// bits and the triple of each class.
#[derive(Debug, Clone, Copy, PartialEq, Eq, Structural)]
pub struct ModeBits {
    pub suid: bool,
    pub sgid: bool,
    pub sticky: bool,
    pub owner: Mode,
    pub group: Mode,
    pub others: Mode,
}

/// Reads the twelve mode bits of a raw bit-set; any higher bits (such as
/// file-type bits) are ignored.
pub open spec fn decode(bits: u32) -> ModeBits {
    ModeBits {
        suid: has_bits(bits, S_ISUID),
        sgid: has_bits(bits, S_ISGID),
        sticky: has_bits(bits, S_ISVTX),
        owner: Mode {
            read: has_bits(bits, S_IRUSR),
            write: has_bits(bits, S_IWUSR),
            execute: has_bits(bits, S_IXUSR),
        },
        group: Mode {
            read: has_bits(bits, S_IRGRP),
            write: has_bits(bits, S_IWGRP),
            execute: has_bits(bits, S_IXGRP),
        },
        others: Mode {
            read: has_bits(bits, S_IROTH),
            write: has_bits(bits, S_IWOTH),
            execute: has_bits(bits, S_IXOTH),
        },
    }
}

/// Writes a structured set of flags back into a raw bit-set.
pub open spec fn encode(b: ModeBits) -> u32 {
    (if b.suid { S_ISUID } else { 0u32 }) | (if b.sgid { S_ISGID } else { 0u32 })
        | (if b.sticky { S_ISVTX } else { 0u32 }) | (if b.owner.read { S_IRUSR } else { 0u32 })
        | (if b.owner.write { S_IWUSR } else { 0u32 })
        | (if b.owner.execute { S_IXUSR } else { 0u32 })
        | (if b.group.read { S_IRGRP } else { 0u32 })
        | (if b.group.write { S_IWGRP } else { 0u32 })
        | (if b.group.execute { S_IXGRP } else { 0u32 })
        | (if b.others.read { S_IROTH } else { 0u32 })
        | (if b.others.write { S_IWOTH } else { 0u32 })
        | (if b.others.execute { S_IXOTH } else { 0u32 })
}

/// The twelve bit positions are independent: writing flags and reading
/// them back yields the same flags, and the written value stays within the
/// twelve mode bits.
proof fn lemma_bits_roundtrip(
    su: bool,
    sg: bool,
    st: bool,
    ur: bool,
    uw: bool,
    ux: bool,
    gr: bool,
    gw: bool,
    gx: bool,
    pr: bool,
    pw: bool,
    px: bool,
)
    ensures
        ({
            let v = (if su { 0o4000u32 } else { 0u32 }) | (if sg { 0o2000u32 } else { 0u32 })
                | (if st { 0o1000u32 } else { 0u32 }) | (if ur { 0o400u32 } else { 0u32 })
                | (if uw { 0o200u32 } else { 0u32 }) | (if ux { 0o100u32 } else { 0u32 })
                | (if gr { 0o40u32 } else { 0u32 }) | (if gw { 0o20u32 } else { 0u32 })
                | (if gx { 0o10u32 } else { 0u32 }) | (if pr { 0o4u32 } else { 0u32 })
                | (if pw { 0o2u32 } else { 0u32 }) | (if px { 0o1u32 } else { 0u32 });
            &&& v <= 0o7777u32
            &&& (v & 0o4000u32 != 0) == su
            &&& (v & 0o2000u32 != 0) == sg
            &&& (v & 0o1000u32 != 0) == st
            &&& (v & 0o400u32 != 0) == ur
            &&& (v & 0o200u32 != 0) == uw
            &&& (v & 0o100u32 != 0) == ux
            &&& (v & 0o40u32 != 0) == gr
            &&& (v & 0o20u32 != 0) == gw
            &&& (v & 0o10u32 != 0) == gx
            &&& (v & 0o4u32 != 0) == pr
            &&& (v & 0o2u32 != 0) == pw
            &&& (v & 0o1u32 != 0) == px
        }),
{
    assert(({
        let v = (if su { 0o4000u32 } else { 0u32 }) | (if sg { 0o2000u32 } else { 0u32 })
            | (if st { 0o1000u32 } else { 0u32 }) | (if ur { 0o400u32 } else { 0u32 })
            | (if uw { 0o200u32 } else { 0u32 }) | (if ux { 0o100u32 } else { 0u32 })
            | (if gr { 0o40u32 } else { 0u32 }) | (if gw { 0o20u32 } else { 0u32 })
            | (if gx { 0o10u32 } else { 0u32 }) | (if pr { 0o4u32 } else { 0u32 })
            | (if pw { 0o2u32 } else { 0u32 }) | (if px { 0o1u32 } else { 0u32 });
        &&& v <= 0o7777u32
        &&& (v & 0o4000u32 != 0) == su
        &&& (v & 0o2000u32 != 0) == sg
        &&& (v & 0o1000u32 != 0) == st
        &&& (v & 0o400u32 != 0) == ur
        &&& (v & 0o200u32 != 0) == uw
        &&& (v & 0o100u32 != 0) == ux
        &&& (v & 0o40u32 != 0) == gr
        &&& (v & 0o20u32 != 0) == gw
        &&& (v & 0o10u32 != 0) == gx
        &&& (v & 0o4u32 != 0) == pr
        &&& (v & 0o2u32 != 0) == pw
        &&& (v & 0o1u32 != 0) == px
    })) by (bit_vector);
}

/// Round trip between the structured flags and the raw bit-set.
proof fn lemma_decode_encode(b: ModeBits)
    ensures
        decode(encode(b)) == b,
        encode(b) <= MODE_MASK,
{
    lemma_bits_roundtrip(
        b.suid,
        b.sgid,
        b.sticky,
        b.owner.read,
        b.owner.write,
        b.owner.execute,
        b.group.read,
        b.group.write,
        b.group.execute,
        b.others.read,
        b.others.write,
        b.others.execute,
    );
}

/// Some execute bit is set among the three classes.
pub open spec fn any_execute(b: ModeBits) -> bool {
    b.owner.execute || b.group.execute || b.others.execute
}

/// The current triple of the class a copy token references.
pub open spec fn copy_triple(b: ModeBits, c: CopyClass) -> Mode {
    match c {
        CopyClass::User => b.owner,
        CopyClass::Group => b.group,
        CopyClass::Other => b.others,
    }
}

/// The triple the literal tokens ask for: `X` grants execute only when
/// some execute bit is already set.
pub open spec fn literal_triple(p: PermSet, anyx: bool) -> Mode {
    Mode { read: p.read, write: p.write, execute: p.execute || (p.execute_if_any && anyx) }
}

/// What a clause asks for on one class: nothing when the class is not
/// targeted, the referenced class's current triple when a copy token is
/// present (literals are then ignored), and the literal tokens otherwise.
pub open spec fn class_contrib(targeted: bool, s: Symbolic, cur: ModeBits) -> Mode {
    if !targeted {
        Mode { read: false, write: false, execute: false }
    } else {
        match s.copy_from {
            Some(c) => copy_triple(cur, c),
            None => literal_triple(s.perms, any_execute(cur)),
        }
    }
}

/// Everything a clause asks for, over all twelve bits: `s` contributes
/// set-user-id for a targeted user class and set-group-id for a targeted
/// group class; `t` contributes the sticky bit regardless of class; a copy
/// token contributes the referenced triples alone.
pub open spec fn request_bits(cur: ModeBits, s: Symbolic) -> ModeBits {
    ModeBits {
        suid: s.copy_from is None && s.classes.targets_user() && s.perms.setid,
        sgid: s.copy_from is None && s.classes.targets_group() && s.perms.setid,
        sticky: s.copy_from is None && s.perms.sticky,
        owner: class_contrib(s.classes.targets_user(), s, cur),
        group: class_contrib(s.classes.targets_group(), s, cur),
        others: class_contrib(s.classes.targets_other(), s, cur),
    }
}

/// Union of two triples.
pub open spec fn or_triple(a: Mode, b: Mode) -> Mode {
    Mode { read: a.read || b.read, write: a.write || b.write, execute: a.execute || b.execute }
}

/// Difference of two triples.
pub open spec fn andnot_triple(a: Mode, b: Mode) -> Mode {
    Mode {
        read: a.read && !b.read,
        write: a.write && !b.write,
        execute: a.execute && !b.execute,
    }
}

/// How a clause rewrites the current flags.  `Add` unions the asked-for
/// bits in, `Remove` clears them, and `Assign` replaces the bits of each
/// targeted class wholesale while leaving untargeted classes untouched.
/// For `Assign`, the set-user-id bit belongs to the user class, the
/// set-group-id bit to the group class, and the sticky bit to the other
/// class.
pub open spec fn apply_bits(cur: ModeBits, s: Symbolic) -> ModeBits {
    let n = request_bits(cur, s);
    match s.op {
        Operator::Add => ModeBits {
            suid: cur.suid || n.suid,
            sgid: cur.sgid || n.sgid,
            sticky: cur.sticky || n.sticky,
            owner: or_triple(cur.owner, n.owner),
            group: or_triple(cur.group, n.group),
            others: or_triple(cur.others, n.others),
        },
        Operator::Remove => ModeBits {
            suid: cur.suid && !n.suid,
            sgid: cur.sgid && !n.sgid,
            sticky: cur.sticky && !n.sticky,
            owner: andnot_triple(cur.owner, n.owner),
            group: andnot_triple(cur.group, n.group),
            others: andnot_triple(cur.others, n.others),
        },
        Operator::Assign => ModeBits {
            suid: if s.classes.targets_user() {
                n.suid
            } else {
                cur.suid
            },
            sgid: if s.classes.targets_group() {
                n.sgid
            } else {
                cur.sgid
            },
            sticky: if s.classes.targets_other() {
                n.sticky
            } else {
                cur.sticky
            },
            owner: if s.classes.targets_user() {
                n.owner
            } else {
                cur.owner
            },
            group: if s.classes.targets_group() {
                n.group
            } else {
                cur.group
            },
            others: if s.classes.targets_other() {
                n.others
            } else {
                cur.others
            },
        },
    }
}

/// What applying an expression to a permission bit-set yields: an octal
/// literal replaces the bits outright, and a symbolic clause rewrites them
/// per bit.
pub open spec fn spec_apply(current: u32, e: ModeExpression) -> u32 {
    match e {
        ModeExpression::Octal(v) => v,
        ModeExpression::Symbolic(s) => encode(apply_bits(decode(current), s)),
    }
}

/// Executable mirror of `decode`.
fn decode_exec(bits: u32) -> (b: ModeBits)
    ensures
        b == decode(bits),
{
    ModeBits {
        suid: bits & S_ISUID != 0,
        sgid: bits & S_ISGID != 0,
        sticky: bits & S_ISVTX != 0,
        owner: Mode {
            read: bits & S_IRUSR != 0,
            write: bits & S_IWUSR != 0,
            execute: bits & S_IXUSR != 0,
        },
        group: Mode {
            read: bits & S_IRGRP != 0,
            write: bits & S_IWGRP != 0,
            execute: bits & S_IXGRP != 0,
        },
        others: Mode {
            read: bits & S_IROTH != 0,
            write: bits & S_IWOTH != 0,
            execute: bits & S_IXOTH != 0,
        },
    }
}

/// Executable mirror of `encode`.
fn encode_exec(b: &ModeBits) -> (v: u32)
    ensures
        v == encode(*b),
{
    (if b.suid { S_ISUID } else { 0u32 }) | (if b.sgid { S_ISGID } else { 0u32 })
        | (if b.sticky { S_ISVTX } else { 0u32 }) | (if b.owner.read { S_IRUSR } else { 0u32 })
        | (if b.owner.write { S_IWUSR } else { 0u32 })
        | (if b.owner.execute { S_IXUSR } else { 0u32 })
        | (if b.group.read { S_IRGRP } else { 0u32 })
        | (if b.group.write { S_IWGRP } else { 0u32 })
        | (if b.group.execute { S_IXGRP } else { 0u32 })
        | (if b.others.read { S_IROTH } else { 0u32 })
        | (if b.others.write { S_IWOTH } else { 0u32 })
        | (if b.others.execute { S_IXOTH } else { 0u32 })
}

/// Executable mirror of `class_contrib`.
fn class_contrib_exec(targeted: bool, s: &Symbolic, cur: &ModeBits, anyx: bool) -> (m: Mode)
    requires
        anyx == any_execute(*cur),
    ensures
        m == class_contrib(targeted, *s, *cur),
{
    if !targeted {
        Mode { read: false, write: false, execute: false }
    } else {
        match s.copy_from {
            Some(CopyClass::User) => cur.owner,
            Some(CopyClass::Group) => cur.group,
            Some(CopyClass::Other) => cur.others,
            None => Mode {
                read: s.perms.read,
                write: s.perms.write,
                execute: s.perms.execute || (s.perms.execute_if_any && anyx),
            },
        }
    }
}

/// Executable mirror of `apply_bits`.
fn apply_bits_exec(cur: &ModeBits, s: &Symbolic) -> (b: ModeBits)
    ensures
        b == apply_bits(*cur, *s),
{
    let anyx = cur.owner.execute || cur.group.execute || cur.others.execute;
    let tu = s.classes.user || s.classes.all;
    let tg = s.classes.group || s.classes.all;
    let to = s.classes.other || s.classes.all;
    let no_copy = match s.copy_from {
        None => true,
        Some(_) => false,
    };
    let n = ModeBits {
        suid: no_copy && tu && s.perms.setid,
        sgid: no_copy && tg && s.perms.setid,
        sticky: no_copy && s.perms.sticky,
        owner: class_contrib_exec(tu, s, cur, anyx),
        group: class_contrib_exec(tg, s, cur, anyx),
        others: class_contrib_exec(to, s, cur, anyx),
    };
    match s.op {
        Operator::Add => ModeBits {
            suid: cur.suid || n.suid,
            sgid: cur.sgid || n.sgid,
            sticky: cur.sticky || n.sticky,
            owner: Mode {
                read: cur.owner.read || n.owner.read,
                write: cur.owner.write || n.owner.write,
                execute: cur.owner.execute || n.owner.execute,
            },
            group: Mode {
                read: cur.group.read || n.group.read,
                write: cur.group.write || n.group.write,
                execute: cur.group.execute || n.group.execute,
            },
            others: Mode {
                read: cur.others.read || n.others.read,
                write: cur.others.write || n.others.write,
                execute: cur.others.execute || n.others.execute,
            },
        },
        Operator::Remove => ModeBits {
            suid: cur.suid && !n.suid,
            sgid: cur.sgid && !n.sgid,
            sticky: cur.sticky && !n.sticky,
            owner: Mode {
                read: cur.owner.read && !n.owner.read,
                write: cur.owner.write && !n.owner.write,
                execute: cur.owner.execute && !n.owner.execute,
            },
            group: Mode {
                read: cur.group.read && !n.group.read,
                write: cur.group.write && !n.group.write,
                execute: cur.group.execute && !n.group.execute,
            },
            others: Mode {
                read: cur.others.read && !n.others.read,
                write: cur.others.write && !n.others.write,
                execute: cur.others.execute && !n.others.execute,
            },
        },
        Operator::Assign => ModeBits {
            suid: if tu { n.suid } else { cur.suid },
            sgid: if tg { n.sgid } else { cur.sgid },
            sticky: if to { n.sticky } else { cur.sticky },
            owner: if tu { n.owner } else { cur.owner },
            group: if tg { n.group } else { cur.group },
            others: if to { n.others } else { cur.others },
        },
    }
}

/// Applies a parsed expression to a permission bit-set and returns the new
/// bit-set.  The twelve mode bits of `current` are consulted; any higher
/// bits are ignored and absent from the result.
pub fn apply(current: u32, e: &ModeExpression) -> (r: u32)
    ensures
        r == spec_apply(current, *e),
        e.wf() ==> r <= MODE_MASK,
{
    match e {
        ModeExpression::Octal(v) => *v,
        ModeExpression::Symbolic(s) => {
            let cur = decode_exec(current);
            let b = apply_bits_exec(&cur, s);
            proof {
                lemma_decode_encode(apply_bits(decode(current), *s));
            }
            encode_exec(&b)
        },
    }
}

/// What `apply_mode_expression` yields: the applied new bits when the
/// string parses, and the parse error otherwise.
pub open spec fn spec_apply_mode_expression(current: u32, s: Seq<char>) -> Result<
    u32,
    ModeParseError,
> {
    match spec_parse(s) {
        Ok(e) => Ok(spec_apply(current, e)),
        Err(err) => Err(err),
    }
}

/// Parses a mode string and applies it to a permission bit-set in one
/// step: the interface `chmod` and the preserve-mode path of `cp` use.
pub fn apply_mode_expression(current: u32, expression: &str) -> (r: Result<u32, ModeParseError>)
    ensures
        r == spec_apply_mode_expression(current, expression@),
        r matches Ok(v) ==> v <= MODE_MASK,
{
    match parse(expression) {
        Ok(e) => Ok(apply(current, &e)),
        Err(err) => Err(err),
    }
}

/// Powers of eight, for bounding short octal literals.
pub open spec fn pow8(n: nat) -> int
    decreases n,
{
    if n == 0 {
        1
    } else {
        8 * pow8((n - 1) as nat)
    }
}

/// A short octal-digit string reads the same with and without masking,
/// and its value is bounded by the corresponding power of eight.
proof fn lemma_octal_small(s: Seq<char>)
    requires
        s.len() <= 4,
        forall|i: int| 0 <= i < s.len() ==> is_octal_digit(#[trigger] s[i]),
    ensures
        octal_mode_value(s) == plain_octal_value(s),
        0 <= plain_octal_value(s) < pow8(s.len()),
    decreases s.len(),
{
    if s.len() > 0 {
        assert(forall|i: int|
            0 <= i < s.len() - 1 ==> #[trigger] s.drop_last()[i] == s[i]);
        lemma_octal_small(s.drop_last());
        assert(is_octal_digit(s.last()));
        assert(pow8(s.len()) == 8 * pow8((s.len() - 1) as nat));
        assert(pow8((s.len() - 1) as nat) <= 512) by {
            assert(pow8(0) == 1 && pow8(1) == 8 && pow8(2) == 64 && pow8(3) == 512);
        }
    }
}

/// For every octal string of one to four digits, parsing succeeds with the
/// plain radix-8 value as an absolute literal, and applying that literal
/// yields exactly this value, whatever the current bits are.
pub proof fn lemma_octal_literal(s: Seq<char>, current: u32)
    requires
        1 <= s.len() <= 4,
        forall|i: int| 0 <= i < s.len() ==> is_octal_digit(#[trigger] s[i]),
    ensures
        spec_parse(s) == Ok::<ModeExpression, ModeParseError>(
            ModeExpression::Octal(plain_octal_value(s) as u32),
        ),
        spec_apply(current, ModeExpression::Octal(plain_octal_value(s) as u32))
            == plain_octal_value(s),
{
    lemma_octal_small(s);
    assert(pow8(s.len()) <= 4096) by {
        assert(pow8(0) == 1 && pow8(1) == 8 && pow8(2) == 64 && pow8(3) == 512 && pow8(4)
            == 4096);
    }
}

/// Re-applying an absolute assignment is a no-op: for an octal literal or
/// an `Assign` clause, applying the expression a second time returns the
/// first result unchanged.  (`Add` and `Remove` clauses with copy tokens
/// are not covered by this statement.)
pub proof fn lemma_assign_idempotent(bits: u32, e: ModeExpression)
    requires
        e.wf(),
        e matches ModeExpression::Symbolic(s) ==> s.op == Operator::Assign,
    ensures
        spec_apply(spec_apply(bits, e), e) == spec_apply(bits, e),
{
    match e {
        ModeExpression::Octal(_) => {},
        ModeExpression::Symbolic(s) => {
            let c = decode(bits);
            let x = apply_bits(c, s);
            lemma_decode_encode(x);
            assert(apply_bits(x, s) == x);
        },
    }
}


/// With no execute bit set anywhere on the current mode, the `X` token
/// contributes nothing: the result is the same as if the token had not
/// been written.  (With some execute bit set, `X` acts as `x` for every
/// targeted class.)
pub proof fn lemma_execute_if_any_inert(current: u32, s: Symbolic)
    requires
        !has_bits(current, S_IXUSR),
        !has_bits(current, S_IXGRP),
        !has_bits(current, S_IXOTH),
    ensures
        spec_apply(current, ModeExpression::Symbolic(s)) == spec_apply(
            current,
            ModeExpression::Symbolic(
                Symbolic {
                    perms: PermSet { execute_if_any: false, ..s.perms },
                    ..s
                },
            ),
        ),
{
}

} // verus!
