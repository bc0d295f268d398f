//! Small shared helpers: character extraction from strings, the negative
//! return-value check used around raw system calls, and byte formatting.

use vstd::prelude::*;

verus! {

/// Copies the characters of a string slice into a vector, so that the
/// grammar code can index them freely.
pub fn chars_of(s: &str) -> (v: Vec<char>)
    ensures
        v@ == s@,
{
    let n = s.unicode_len();
    let mut v: Vec<char> = Vec::new();
    let mut i: usize = 0;
    while i < n
        invariant
            i <= n,
            n == s@.len(),
            v@ == s@.take(i as int),
        decreases n - i,
    {
        v.push(s.get_char(i));
        i = i + 1;
        proof {
            assert(v@ =~= s@.take(i as int));
        }
    }
    proof {
        assert(s@.take(n as int) =~= s@);
    }
    v
}

/// Separates the success and failure ranges of a raw system-call return
/// value: negative means failure, anything else is the result itself.  The
/// caller attaches the live error number to the failure.
pub fn libc_wrap(num: i64) -> (r: Result<i64, i64>)
    ensures
        num >= 0 ==> r == Ok::<i64, i64>(num),
        num < 0 ==> r == Err::<i64, i64>(num),
{
    if num < 0 {
        Err(num)
    } else {
        Ok(num)
    }
}

/// Converts a byte count to whole kibibytes, rounding any remainder up.
pub fn format_bytes(bytes: u64) -> (r: u64)
    ensures
        r == bytes / 1024 + if bytes % 1024 != 0 {
            1int
        } else {
            0int
        },
{
    bytes / 1024 + if bytes % 1024 != 0 {
        1
    } else {
        0
    }
}


/// Relies on String::push: appends exactly the one character.
#[verifier::external_body]
pub(crate) fn push_char(s: &mut String, c: char)
    ensures
        final(s)@ == old(s)@.push(c),
{
    s.push(c);
}

/// How one character is rendered in caret notation: printable characters
/// stand as they are, the delete character becomes `^?`, bytes above 127
/// get an `M-` prefix, and control codes become a caret and the letter 64
/// places up.  The decision reads the low byte of the character, as the
/// byte-oriented renderer does; tabs and newlines pass through, a tab only
/// while tabs are not being shown.
pub open spec fn escape_char(c: char, show_tabs: bool) -> Seq<char> {
    let b = (c as u32) % 256;
    if b >= 32 {
        if b < 127 {
            seq![c]
        } else if b == 127 {
            seq!['^', '?']
        } else if b >= 160 {
            if b < 255 {
                seq!['M', '-', (((b - 128) as u8) as char)]
            } else {
                seq!['M', '-', '^', '?']
            }
        } else {
            seq!['M', '-', '^', (((b - 128 + 64) as u8) as char)]
        }
    } else if c == '\t' && !show_tabs {
        seq![c]
    } else if c == '\n' {
        seq![c]
    } else {
        seq!['^', (((b + 64) as u8) as char)]
    }
}

/// The caret-notation rendering of a whole string.
pub open spec fn spec_c_escape(s: Seq<char>, show_tabs: bool) -> Seq<char>
    decreases s.len(),
{
    if s.len() == 0 {
        Seq::<char>::empty()
    } else {
        spec_c_escape(s.drop_last(), show_tabs) + escape_char(s.last(), show_tabs)
    }
}

/// Renders control and non-ASCII characters in caret and meta notation,
/// leaving newlines alone and tabs alone unless they are being shown.
pub fn c_escape(contents: String, show_tabs: bool) -> (r: String)
    ensures
        r@ == spec_c_escape(contents@, show_tabs),
{
    let v = chars_of(contents.as_str());
    let n = v.len();
    let mut r = String::new();
    let mut i: usize = 0;
    while i < n
        invariant
            i <= n,
            n == v@.len(),
            v@ == contents@,
            r@ == spec_c_escape(v@.take(i as int), show_tabs),
        decreases n - i,
    {
        let c = v[i];
        proof {
            assert(v@.take(i + 1).drop_last() =~= v@.take(i as int));
            assert(v@.take(i + 1).last() == v@[i as int]);
        }
        let code = c as u32;
        let b = code % 256;
        if b >= 32 {
            if b < 127 {
                push_char(&mut r, c);
            } else if b == 127 {
                push_char(&mut r, '^');
                push_char(&mut r, '?');
            } else {
                push_char(&mut r, 'M');
                push_char(&mut r, '-');
                if b >= 160 {
                    if b < 255 {
                        push_char(&mut r, ((b - 128) as u8) as char);
                    } else {
                        push_char(&mut r, '^');
                        push_char(&mut r, '?');
                    }
                } else {
                    push_char(&mut r, '^');
                    push_char(&mut r, ((b - 128 + 64) as u8) as char);
                }
            }
        } else if c == '\t' && !show_tabs {
            push_char(&mut r, c);
        } else if c == '\n' {
            push_char(&mut r, c);
        } else {
            push_char(&mut r, '^');
            push_char(&mut r, ((b + 64) as u8) as char);
        }
        proof {
            assert(r@ =~= spec_c_escape(v@.take(i + 1), show_tabs));
        }
        i = i + 1;
    }
    proof {
        assert(v@.take(n as int) =~= v@);
    }
    r
}

/// A string with every trailing slash removed.
pub open spec fn strip_trailing_slashes(s: Seq<char>) -> Seq<char>
    decreases s.len(),
{
    if s.len() > 0 && s.last() == '/' {
        strip_trailing_slashes(s.drop_last())
    } else {
        s
    }
}

/// How a source path is prepared: with stripping on, trailing slashes go;
/// with the destination treated as a directory, one trailing slash is
/// guaranteed; otherwise the path stands as given.
pub open spec fn spec_slashes(strip: bool, target_dir: bool, s: Seq<char>) -> Seq<char> {
    if strip {
        strip_trailing_slashes(s)
    } else if target_dir {
        if s.len() > 0 && s.last() == '/' {
            s
        } else {
            s.push('/')
        }
    } else {
        s
    }
}

/// Prepares a source path argument: strips trailing slashes, or appends
/// the one slash a directory destination wants, or leaves it alone.
/// Stripping wins when both flags are set.
pub fn slashes(strip: bool, target_dir: bool, p: &str) -> (r: String)
    ensures
        r@ == spec_slashes(strip, target_dir, p@),
{
    let n = p.unicode_len();
    if strip {
        let mut k: usize = n;
        proof {
            assert(p@.take(n as int) =~= p@);
        }
        while k > 0 && p.get_char(k - 1) == '/'
            invariant
                k <= n,
                n == p@.len(),
                strip_trailing_slashes(p@) == strip_trailing_slashes(p@.take(k as int)),
            decreases k,
        {
            proof {
                assert(p@.take(k as int).drop_last() =~= p@.take(k - 1));
                assert(p@.take(k as int).last() == p@[k - 1]);
            }
            k = k - 1;
        }
        proof {
            if k > 0 {
                assert(p@.take(k as int).last() == p@[k - 1]);
            }
            assert(strip_trailing_slashes(p@.take(k as int)) == p@.take(k as int));
        }
        let cut = p.substring_char(0, k);
        cut.to_owned()
    } else if target_dir {
        if n > 0 && p.get_char(n - 1) == '/' {
            p.to_owned()
        } else {
            let mut r = p.to_owned();
            push_char(&mut r, '/');
            r
        }
    } else {
        p.to_owned()
    }
}

/// An owner and group pair, each side still textual: a name, a numeric
/// id, or the underscore that leaves the side unchanged.
#[derive(Debug)]
pub struct Perms {
    pub owner: String,
    pub group: String,
}

/// The index of the first colon, or the length when there is none.
pub open spec fn find_colon(s: Seq<char>) -> int
    decreases s.len(),
{
    if s.len() == 0 {
        0
    } else if s.first() == ':' {
        0
    } else {
        1 + find_colon(s.drop_first())
    }
}

/// The first colon really is where a left-to-right scan stops.
proof fn lemma_find_colon_at(s: Seq<char>, i: int)
    requires
        0 <= i < s.len(),
        s[i] == ':',
        forall|j: int| 0 <= j < i ==> s[j] != ':',
    ensures
        find_colon(s) == i,
    decreases i,
{
    if i > 0 {
        assert(s.drop_first()[i - 1] == s[i]);
        assert(forall|j: int| 0 <= j < i - 1 ==> #[trigger] s.drop_first()[j] == s[j + 1]);
        lemma_find_colon_at(s.drop_first(), i - 1);
    }
}

/// A colon-free string scans to its end.
proof fn lemma_find_colon_none(s: Seq<char>)
    requires
        forall|j: int| 0 <= j < s.len() ==> s[j] != ':',
    ensures
        find_colon(s) == s.len(),
    decreases s.len(),
{
    if s.len() > 0 {
        assert(forall|j: int| 0 <= j < s.len() - 1 ==> #[trigger] s.drop_first()[j] == s[j + 1]);
        lemma_find_colon_none(s.drop_first());
    }
}

/// Splits an `owner:group` argument at its first colon; without a colon
/// the whole argument names the owner and the group side is the
/// underscore that leaves it unchanged.
pub fn get_perms(perm_str: &str) -> (r: Perms)
    ensures
        ({
            let s = perm_str@;
            let k = find_colon(s);
            if k < s.len() {
                r.owner@ == s.take(k) && r.group@ == s.skip(k + 1)
            } else {
                r.owner@ == s && r.group@ == seq!['_']
            }
        }),
{
    let n = perm_str.unicode_len();
    let mut i: usize = 0;
    while i < n
        invariant
            i <= n,
            n == perm_str@.len(),
            forall|j: int| 0 <= j < i ==> perm_str@[j] != ':',
        decreases n - i,
    {
        if perm_str.get_char(i) == ':' {
            proof {
                lemma_find_colon_at(perm_str@, i as int);
            }
            let owner = perm_str.substring_char(0, i).to_owned();
            let group = perm_str.substring_char(i + 1, n).to_owned();
            return Perms { owner, group };
        }
        i = i + 1;
    }
    proof {
        lemma_find_colon_none(perm_str@);
        reveal_strlit("_");
    }
    let owner = perm_str.to_owned();
    let group = String::from_str("_");
    proof {
        assert(group@ =~= seq!['_']);
    }
    Perms { owner, group }
}


/// How one side of an `owner:group` argument resolves: the underscore
/// leaves the side unchanged, a decimal number that fits an id is the id
/// itself, and anything else is a name for the user database.
#[derive(Debug, Clone, Copy, PartialEq, Eq, Structural)]
pub enum OwnerToken {
    Unchanged,
    Numeric(u32),
    Name,
}

/// A decimal digit.
pub open spec fn is_dec_digit(c: char) -> bool {
    48 <= c as u32 && c as u32 <= 57
}

/// The decimal reading of a digit string.
pub open spec fn decimal_value(s: Seq<char>) -> int
    decreases s.len(),
{
    if s.len() == 0 {
        0
    } else {
        decimal_value(s.drop_last()) * 10 + (s.last() as u32 - 48)
    }
}

/// Decimal readings are never negative.
proof fn lemma_decimal_nonneg(s: Seq<char>)
    requires
        forall|i: int| 0 <= i < s.len() ==> is_dec_digit(#[trigger] s[i]),
    ensures
        decimal_value(s) >= 0,
    decreases s.len(),
{
    if s.len() > 0 {
        assert(forall|i: int|
            0 <= i < s.len() - 1 ==> #[trigger] s.drop_last()[i] == s[i]);
        lemma_decimal_nonneg(s.drop_last());
        assert(is_dec_digit(s.last()));
    }
}

/// A digit string reads at least as large as any of its prefixes.
proof fn lemma_decimal_take_le(s: Seq<char>, k: int)
    requires
        0 <= k <= s.len(),
        forall|i: int| 0 <= i < s.len() ==> is_dec_digit(#[trigger] s[i]),
    ensures
        decimal_value(s.take(k)) <= decimal_value(s),
    decreases s.len() - k,
{
    if k == s.len() {
        assert(s.take(k) =~= s);
    } else {
        assert(s.take(k + 1).drop_last() =~= s.take(k));
        assert(s.take(k + 1).last() == s[k]);
        assert(forall|i: int| 0 <= i < k + 1 ==> #[trigger] s.take(k + 1)[i] == s[i]);
        assert(forall|i: int| 0 <= i < k ==> #[trigger] s.take(k)[i] == s[i]);
        lemma_decimal_nonneg(s.take(k));
        assert(is_dec_digit(s[k]));
        lemma_decimal_take_le(s, k + 1);
    }
}

/// What one side of an `owner:group` argument resolves to.
pub open spec fn spec_owner_token(s: Seq<char>) -> OwnerToken {
    if s == seq!['_'] {
        OwnerToken::Unchanged
    } else if s.len() > 0 && (forall|i: int| 0 <= i < s.len() ==> is_dec_digit(#[trigger] s[i]))
        && decimal_value(s) <= u32::MAX {
        OwnerToken::Numeric(decimal_value(s) as u32)
    } else {
        OwnerToken::Name
    }
}

/// Classifies one side of an `owner:group` argument: underscore, numeric
/// id, or name.  A number too large for an id counts as a name, as the
/// failed numeric parse does before the database lookup.
pub fn owner_token(s: &str) -> (r: OwnerToken)
    ensures
        r == spec_owner_token(s@),
{
    let v = chars_of(s);
    let n = v.len();
    if n == 1 && v[0] == '_' {
        proof {
            assert(v@ =~= seq!['_']);
        }
        return OwnerToken::Unchanged;
    }
    if n == 0 {
        return OwnerToken::Name;
    }
    proof {
        assert(v@ != seq!['_']);
    }
    let mut val: u64 = 0;
    let mut i: usize = 0;
    while i < n
        invariant
            i <= n,
            n == v@.len(),
            v@ == s@,
            v@ != seq!['_'],
            forall|j: int| 0 <= j < i ==> is_dec_digit(#[trigger] v@[j]),
            val == decimal_value(v@.take(i as int)),
            val <= u32::MAX,
        decreases n - i,
    {
        let c = v[i];
        let code = c as u32;
        if !(48 <= code && code <= 57) {
            proof {
                assert(!is_dec_digit(v@[i as int]));
            }
            return OwnerToken::Name;
        }
        proof {
            assert(v@.take(i + 1).drop_last() =~= v@.take(i as int));
            assert(v@.take(i + 1).last() == v@[i as int]);
        }
        val = val * 10 + ((code - 48) as u64);
        if val > 0xFFFF_FFFF {
            proof {
                if forall|j: int| 0 <= j < v@.len() ==> is_dec_digit(#[trigger] v@[j]) {
                    lemma_decimal_take_le(v@, i + 1);
                }
            }
            return OwnerToken::Name;
        }
        i = i + 1;
    }
    proof {
        assert(v@.take(n as int) =~= v@);
    }
    OwnerToken::Numeric(val as u32)
}


/// How one character is rendered when tabs are shown: a tab becomes the
/// caret notation `^I`, everything else stands as it is.
pub open spec fn tab_char(c: char) -> Seq<char> {
    if c == '\t' {
        seq!['^', 'I']
    } else {
        seq![c]
    }
}

/// A whole string with every tab shown in caret notation.
pub open spec fn spec_tabs(s: Seq<char>) -> Seq<char>
    decreases s.len(),
{
    if s.len() == 0 {
        Seq::<char>::empty()
    } else {
        spec_tabs(s.drop_last()) + tab_char(s.last())
    }
}

/// Shows tabs as `^I` when asked to; otherwise hands the text back
/// unchanged.
pub fn tabs(show: bool, contents: String) -> (r: String)
    ensures
        show ==> r@ == spec_tabs(contents@),
        !show ==> r@ == contents@,
{
    if !show {
        return contents;
    }
    let v = chars_of(contents.as_str());
    let n = v.len();
    let mut r = String::new();
    let mut i: usize = 0;
    while i < n
        invariant
            i <= n,
            n == v@.len(),
            v@ == contents@,
            r@ == spec_tabs(v@.take(i as int)),
        decreases n - i,
    {
        let c = v[i];
        proof {
            assert(v@.take(i + 1).drop_last() =~= v@.take(i as int));
            assert(v@.take(i + 1).last() == v@[i as int]);
        }
        if c == '\t' {
            push_char(&mut r, '^');
            push_char(&mut r, 'I');
        } else {
            push_char(&mut r, c);
        }
        proof {
            assert(r@ =~= spec_tabs(v@.take(i + 1)));
        }
        i = i + 1;
    }
    proof {
        assert(v@.take(n as int) =~= v@);
    }
    r
}

/// How one character is rendered when line ends are shown: a newline gets
/// a dollar sign before it, everything else stands as it is.
pub open spec fn end_char(c: char) -> Seq<char> {
    if c == '\n' {
        seq!['$', '\n']
    } else {
        seq![c]
    }
}

/// A whole string with every line end marked; the text always gains a
/// final marked line end, whether or not it closed with a newline.
pub open spec fn spec_ends(s: Seq<char>) -> Seq<char>
    decreases s.len(),
{
    if s.len() == 0 {
        seq!['$', '\n']
    } else {
        spec_ends_body(s) + seq!['$', '\n']
    }
}

/// The marked body of a string, without the final marker.
pub open spec fn spec_ends_body(s: Seq<char>) -> Seq<char>
    decreases s.len(),
{
    if s.len() == 0 {
        Seq::<char>::empty()
    } else {
        spec_ends_body(s.drop_last()) + end_char(s.last())
    }
}

/// Marks every line end with a dollar sign when asked to; otherwise hands
/// the text back unchanged.
pub fn ends(show: bool, contents: String) -> (r: String)
    ensures
        show ==> r@ == spec_ends(contents@),
        !show ==> r@ == contents@,
{
    if !show {
        return contents;
    }
    let v = chars_of(contents.as_str());
    let n = v.len();
    let mut r = String::new();
    let mut i: usize = 0;
    while i < n
        invariant
            i <= n,
            n == v@.len(),
            v@ == contents@,
            r@ == spec_ends_body(v@.take(i as int)),
        decreases n - i,
    {
        let c = v[i];
        proof {
            assert(v@.take(i + 1).drop_last() =~= v@.take(i as int));
            assert(v@.take(i + 1).last() == v@[i as int]);
        }
        if c == '\n' {
            push_char(&mut r, '$');
            push_char(&mut r, '\n');
        } else {
            push_char(&mut r, c);
        }
        proof {
            assert(r@ =~= spec_ends_body(v@.take(i + 1)));
        }
        i = i + 1;
    }
    push_char(&mut r, '$');
    push_char(&mut r, '\n');
    proof {
        assert(v@.take(n as int) =~= v@);
        assert(r@ =~= spec_ends(v@));
    }
    r
}


/// A whitespace character, by the Unicode white-space list that the
/// standard library's whitespace test documents.
pub open spec fn is_space_char(c: char) -> bool {
    let n = c as u32;
    n == 0x9 || n == 0xA || n == 0xB || n == 0xC || n == 0xD || n == 0x20 || n == 0x85 || n
        == 0xA0 || n == 0x1680 || (0x2000 <= n && n <= 0x200A) || n == 0x2028 || n == 0x2029 || n
        == 0x202F || n == 0x205F || n == 0x3000
}

/// Some character of the line is not whitespace.
pub open spec fn has_ink(s: Seq<char>) -> bool {
    exists|i: int| 0 <= i < s.len() && !is_space_char(#[trigger] s[i])
}

/// The length of the first line, its newline included; the whole string
/// when no newline remains.
pub open spec fn line_len(s: Seq<char>) -> int
    decreases s.len(),
{
    if s.len() == 0 {
        0
    } else if s.first() == '\n' {
        1
    } else {
        1 + line_len(s.drop_first())
    }
}

/// The first line is never empty and never longer than the string.
proof fn lemma_line_len_bounds(s: Seq<char>)
    requires
        s.len() > 0,
    ensures
        1 <= line_len(s) <= s.len(),
    decreases s.len(),
{
    if s.first() == '\n' {
    } else if s.len() == 1 {
        assert(s.drop_first().len() == 0);
        assert(line_len(s.drop_first()) == 0);
    } else {
        lemma_line_len_bounds(s.drop_first());
    }
}

/// The first newline really is where a left-to-right scan stops: with no
/// newline among the first `m` characters and either the end or a newline
/// at `m`, the first line ends there.
proof fn lemma_line_len_at(s: Seq<char>, m: int)
    requires
        0 <= m <= s.len(),
        forall|k: int| 0 <= k < m ==> s[k] != '\n',
        m == s.len() || s[m] == '\n',
    ensures
        line_len(s) == if m == s.len() {
            s.len() as int
        } else {
            m + 1
        },
    decreases s.len(),
{
    if s.len() > 0 && m > 0 {
        assert(forall|k: int| 0 <= k < m - 1 ==> #[trigger] s.drop_first()[k] == s[k + 1]);
        if m < s.len() {
            assert(s.drop_first()[m - 1] == s[m]);
        }
        lemma_line_len_at(s.drop_first(), m - 1);
    }
}

/// A string with its blank lines removed: the string is read line by
/// line, each line keeping its newline, and a line with no character
/// beyond whitespace is dropped.
pub open spec fn spec_squeeze_blank(s: Seq<char>) -> Seq<char>
    decreases s.len(),
{
    if s.len() == 0 {
        Seq::<char>::empty()
    } else {
        let n = line_len(s);
        if 1 <= n <= s.len() {
            (if has_ink(s.take(n)) {
                s.take(n)
            } else {
                Seq::<char>::empty()
            }) + spec_squeeze_blank(s.skip(n))
        } else {
            Seq::<char>::empty()
        }
    }
}

/// Drops blank output lines when asked to; otherwise hands the text back
/// unchanged.  A line counts as blank when it trims down to nothing.
pub fn squeeze_blank(squeeze: bool, contents: String) -> (r: String)
    ensures
        squeeze ==> r@ == spec_squeeze_blank(contents@),
        !squeeze ==> r@ == contents@,
{
    if !squeeze {
        return contents;
    }
    let v = chars_of(contents.as_str());
    let n = v.len();
    let mut r = String::new();
    let mut a: usize = 0;
    proof {
        assert(v@.skip(0) =~= v@);
        assert(r@ + spec_squeeze_blank(v@) =~= spec_squeeze_blank(v@));
    }
    while a < n
        invariant
            a <= n,
            n == v@.len(),
            v@ == contents@,
            r@ + spec_squeeze_blank(v@.skip(a as int)) == spec_squeeze_blank(v@),
        decreases n - a,
    {
        let ghost rest = v@.skip(a as int);
        // Find the end of the line, newline included.
        let mut j: usize = a;
        while j < n && v[j] != '\n'
            invariant
                a <= j <= n,
                n == v@.len(),
                forall|k: int| a <= k < j ==> v@[k] != '\n',
            decreases n - j,
        {
            j = j + 1;
        }
        let b = if j < n {
            j + 1
        } else {
            n
        };
        proof {
            assert(forall|k: int|
                0 <= k < j - a ==> #[trigger] rest[k] == v@[k + a]);
            if j < n {
                assert(rest[j - a] == v@[j as int]);
            }
            lemma_line_len_at(rest, j - a);
            assert(line_len(rest) == b - a);
            lemma_line_len_bounds(rest);
        }
        // Does the line hold anything beyond whitespace?
        let mut ink = false;
        let mut k: usize = a;
        while k < b
            invariant
                a <= k <= b <= n,
                n == v@.len(),
                ink == exists|t: int| a <= t < k && !is_space_char(#[trigger] v@[t]),
            decreases b - k,
        {
            let c = v[k];
            let code = c as u32;
            let space = code == 0x9 || code == 0xA || code == 0xB || code == 0xC || code == 0xD
                || code == 0x20 || code == 0x85 || code == 0xA0 || code == 0x1680 || (0x2000
                <= code && code <= 0x200A) || code == 0x2028 || code == 0x2029 || code == 0x202F
                || code == 0x205F || code == 0x3000;
            if !space {
                ink = true;
            }
            k = k + 1;
        }
        let ghost line = rest.take(b - a);
        proof {
            assert(forall|t: int|
                0 <= t < b - a ==> #[trigger] line[t] == v@[t + a]);
            assert(ink == has_ink(line)) by {
                if ink {
                    let t = choose|t: int| a <= t < b && !is_space_char(v@[t]);
                    assert(line[t - a] == v@[t]);
                }
                if has_ink(line) {
                    let t = choose|t: int| 0 <= t < line.len() && !is_space_char(line[t]);
                    assert(v@[t + a] == line[t]);
                }
            }
        }
        if ink {
            let ghost r0 = r@;
            let mut k: usize = a;
            while k < b
                invariant
                    a <= k <= b <= n,
                    n == v@.len(),
                    line == v@.skip(a as int).take(b - a),
                    forall|t: int| 0 <= t < b - a ==> #[trigger] line[t] == v@[t + a],
                    r@ == r0 + line.take(k - a),
                decreases b - k,
            {
                push_char(&mut r, v[k]);
                proof {
                    assert(line.take(k + 1 - a) =~= line.take(k - a).push(line[k - a]));
                    assert(r@ =~= r0 + line.take(k + 1 - a));
                }
                k = k + 1;
            }
            proof {
                assert(line.take(b - a) =~= line);
            }
        }
        proof {
            assert(rest.skip(b - a) =~= v@.skip(b as int));
            assert(spec_squeeze_blank(rest) == (if has_ink(line) {
                line
            } else {
                Seq::<char>::empty()
            }) + spec_squeeze_blank(v@.skip(b as int)));
            assert(r@ + spec_squeeze_blank(v@.skip(b as int)) =~= spec_squeeze_blank(v@));
        }
        a = b;
    }
    proof {
        assert(v@.skip(n as int) =~= Seq::<char>::empty());
    }
    r
}


/// The decimal digits of a number, most significant first.
pub open spec fn dec_digits(n: nat) -> Seq<char>
    decreases n,
{
    if n < 10 {
        seq![(((48 + n) as u8) as char)]
    } else {
        dec_digits(n / 10).push((((48 + n % 10) as u8) as char))
    }
}

/// Appends the decimal digits of a number to a string.
pub(crate) fn push_dec(n: u64, r: &mut String)
    ensures
        final(r)@ == old(r)@ + dec_digits(n as nat),
    decreases n,
{
    if n < 10 {
        push_char(r, ((48 + n) as u8) as char);
        proof {
            assert(r@ =~= old(r)@ + dec_digits(n as nat));
        }
    } else {
        push_dec(n / 10, r);
        push_char(r, ((48 + n % 10) as u8) as char);
        proof {
            assert(r@ =~= old(r)@ + dec_digits(n as nat));
        }
    }
}


/// A run of spaces.
pub open spec fn spaces(n: nat) -> Seq<char>
    decreases n,
{
    if n == 0 {
        Seq::<char>::empty()
    } else {
        spaces((n - 1) as nat).push(' ')
    }
}

/// How many lines the text splits into, a trailing fragment without its
/// newline counting as one.
pub open spec fn count_lines(s: Seq<char>) -> nat
    decreases s.len(),
{
    if s.len() == 0 {
        0
    } else {
        let n = line_len(s);
        if 1 <= n <= s.len() {
            (1 + count_lines(s.skip(n))) as nat
        } else {
            1
        }
    }
}

/// The number column for line numbering: the count of lines, rendered in
/// decimal, sets the width.
pub open spec fn number_width(s: Seq<char>) -> nat {
    dec_digits(count_lines(s)).len()
}

/// A line number left-justified in its column: the digits, then spaces up
/// to the column width.
pub open spec fn padded_number(i: nat, w: nat) -> Seq<char> {
    let d = dec_digits(i);
    d + spaces(if d.len() >= w { 0nat } else { (w - d.len()) as nat })
}

/// A numbered output line: a space, the padded number, a separator, the
/// line itself.
pub open spec fn numbered_line(i: nat, w: nat, line: Seq<char>) -> Seq<char> {
    seq![' '] + padded_number(i, w) + seq![' ', '|', ' '] + line
}

/// An unnumbered output line in a numbered listing: the number column
/// stays blank.
pub open spec fn blank_numbered_line(w: nat, line: Seq<char>) -> Seq<char> {
    seq![' '] + spaces(w) + seq![' ', '|', ' '] + line
}

/// Every line numbered, counting from zero.
pub open spec fn spec_number_all(s: Seq<char>, w: nat, i: nat) -> Seq<char>
    decreases s.len(),
{
    if s.len() == 0 {
        Seq::<char>::empty()
    } else {
        let n = line_len(s);
        if 1 <= n <= s.len() {
            numbered_line(i, w, s.take(n)) + spec_number_all(s.skip(n), w, (i + 1) as nat)
        } else {
            Seq::<char>::empty()
        }
    }
}

/// Only lines with something beyond whitespace numbered, counting from
/// zero; blank lines keep an empty number column.
pub open spec fn spec_number_nonblank(s: Seq<char>, w: nat, i: nat) -> Seq<char>
    decreases s.len(),
{
    if s.len() == 0 {
        Seq::<char>::empty()
    } else {
        let n = line_len(s);
        if 1 <= n <= s.len() {
            if has_ink(s.take(n)) {
                numbered_line(i, w, s.take(n)) + spec_number_nonblank(s.skip(n), w, (i + 1) as nat)
            } else {
                blank_numbered_line(w, s.take(n)) + spec_number_nonblank(s.skip(n), w, i)
            }
        } else {
            Seq::<char>::empty()
        }
    }
}

/// Counts the lines of the text.
fn count_lines_exec(v: &Vec<char>) -> (c: usize)
    ensures
        c == count_lines(v@),
{
    let n = v.len();
    let mut c: usize = 0;
    let mut a: usize = 0;
    proof {
        assert(v@.skip(0) =~= v@);
    }
    while a < n
        invariant
            a <= n,
            c <= a,
            n == v@.len(),
            count_lines(v@) == c + count_lines(v@.skip(a as int)),
        decreases n - a,
    {
        let ghost rest = v@.skip(a as int);
        let mut j: usize = a;
        while j < n && v[j] != '\n'
            invariant
                a <= j <= n,
                n == v@.len(),
                forall|k: int| a <= k < j ==> v@[k] != '\n',
            decreases n - j,
        {
            j = j + 1;
        }
        let b = if j < n {
            j + 1
        } else {
            n
        };
        proof {
            assert(forall|k: int| 0 <= k < j - a ==> #[trigger] rest[k] == v@[k + a]);
            if j < n {
                assert(rest[j - a] == v@[j as int]);
            }
            lemma_line_len_at(rest, j - a);
            lemma_line_len_bounds(rest);
            assert(rest.skip(b - a) =~= v@.skip(b as int));
        }
        c = c + 1;
        a = b;
    }
    proof {
        assert(v@.skip(n as int) =~= Seq::<char>::empty());
    }
    c
}

/// Appends `k` spaces.
fn push_spaces(r: &mut String, k: usize)
    ensures
        final(r)@ == old(r)@ + spaces(k as nat),
{
    let mut t: usize = 0;
    while t < k
        invariant
            t <= k,
            r@ == old(r)@ + spaces(t as nat),
        decreases k - t,
    {
        push_char(r, ' ');
        t = t + 1;
    }
}

/// Appends a line number left-justified in its column.
fn push_padded_number(r: &mut String, i: usize, w: usize)
    ensures
        final(r)@ == old(r)@ + padded_number(i as nat, w as nat),
{
    let mut digits = String::new();
    push_dec(i as u64, &mut digits);
    let dl = digits.as_str().unicode_len();
    r.append(digits.as_str());
    let pad = if dl >= w {
        0
    } else {
        w - dl
    };
    push_spaces(r, pad);
    proof {
        assert(r@ =~= old(r)@ + padded_number(i as nat, w as nat));
    }
}

/// Appends the separator between the number column and the line.
fn push_separator(r: &mut String)
    ensures
        final(r)@ == old(r)@ + seq![' ', '|', ' '],
{
    push_char(r, ' ');
    push_char(r, '|');
    push_char(r, ' ');
    proof {
        assert(r@ =~= old(r)@ + seq![' ', '|', ' ']);
    }
}

/// Numbers the output lines when asked to: every line with the number
/// flag, only non-blank lines with the number-nonblank flag, which wins
/// when both are given.  The column is as wide as the line count needs,
/// and counting starts at zero.
#[verifier::rlimit(100)]
pub fn numbering(number: bool, number_nonblank: bool, contents: String) -> (r: String)
    ensures
        number_nonblank ==> r@ == spec_number_nonblank(contents@, number_width(contents@), 0),
        !number_nonblank && number ==> r@ == spec_number_all(
            contents@,
            number_width(contents@),
            0,
        ),
        !number_nonblank && !number ==> r@ == contents@,
{
    if !number && !number_nonblank {
        return contents;
    }
    let v = chars_of(contents.as_str());
    let n = v.len();
    let total = count_lines_exec(&v);
    let mut width_digits = String::new();
    push_dec(total as u64, &mut width_digits);
    let w = width_digits.as_str().unicode_len();
    let ghost gw = number_width(v@);
    proof {
        assert(w as nat == gw);
    }
    let mut r = String::new();
    let mut ctr: usize = 0;
    let mut a: usize = 0;
    proof {
        assert(v@.skip(0) =~= v@);
        if number_nonblank {
            assert(r@ + spec_number_nonblank(v@, gw, 0) =~= spec_number_nonblank(v@, gw, 0));
        } else {
            assert(r@ + spec_number_all(v@, gw, 0) =~= spec_number_all(v@, gw, 0));
        }
    }
    while a < n
        invariant
            a <= n,
            ctr <= a,
            n == v@.len(),
            v@ == contents@,
            gw == w as nat,
            gw == number_width(v@),
            number || number_nonblank,
            number_nonblank ==> r@ + spec_number_nonblank(v@.skip(a as int), gw, ctr as nat)
                == spec_number_nonblank(v@, gw, 0),
            !number_nonblank ==> r@ + spec_number_all(v@.skip(a as int), gw, ctr as nat)
                == spec_number_all(v@, gw, 0),
        decreases n - a,
    {
        let ghost rest = v@.skip(a as int);
        // Find the end of the line, newline included.
        let mut j: usize = a;
        while j < n && v[j] != '\n'
            invariant
                a <= j <= n,
                n == v@.len(),
                forall|k: int| a <= k < j ==> v@[k] != '\n',
            decreases n - j,
        {
            j = j + 1;
        }
        let b = if j < n {
            j + 1
        } else {
            n
        };
        proof {
            assert(forall|k: int| 0 <= k < j - a ==> #[trigger] rest[k] == v@[k + a]);
            if j < n {
                assert(rest[j - a] == v@[j as int]);
            }
            lemma_line_len_at(rest, j - a);
            lemma_line_len_bounds(rest);
        }
        let ghost line = rest.take(b - a);
        // Does the line hold anything beyond whitespace?
        let mut ink = false;
        let mut k: usize = a;
        while k < b
            invariant
                a <= k <= b <= n,
                n == v@.len(),
                ink == exists|t: int| a <= t < k && !is_space_char(#[trigger] v@[t]),
            decreases b - k,
        {
            let c = v[k];
            let code = c as u32;
            let space = code == 0x9 || code == 0xA || code == 0xB || code == 0xC || code == 0xD
                || code == 0x20 || code == 0x85 || code == 0xA0 || code == 0x1680 || (0x2000
                <= code && code <= 0x200A) || code == 0x2028 || code == 0x2029 || code == 0x202F
                || code == 0x205F || code == 0x3000;
            if !space {
                ink = true;
            }
            k = k + 1;
        }
        proof {
            assert(forall|t: int| 0 <= t < b - a ==> #[trigger] line[t] == v@[t + a]);
            assert(ink == has_ink(line)) by {
                if ink {
                    let t = choose|t: int| a <= t < b && !is_space_char(v@[t]);
                    assert(line[t - a] == v@[t]);
                }
                if has_ink(line) {
                    let t = choose|t: int| 0 <= t < line.len() && !is_space_char(line[t]);
                    assert(v@[t + a] == line[t]);
                }
            }
        }
        // The number column for this line.
        let ghost r0 = r@;
        push_char(&mut r, ' ');
        let numbered = !number_nonblank || ink;
        if numbered {
            push_padded_number(&mut r, ctr, w);
        } else {
            push_spaces(&mut r, w);
        }
        push_separator(&mut r);
        let ghost r1 = r@;
        let mut k: usize = a;
        while k < b
            invariant
                a <= k <= b <= n,
                n == v@.len(),
                line == v@.skip(a as int).take(b - a),
                forall|t: int| 0 <= t < b - a ==> #[trigger] line[t] == v@[t + a],
                r@ == r1 + line.take(k - a),
            decreases b - k,
        {
            push_char(&mut r, v[k]);
            proof {
                assert(line.take(k + 1 - a) =~= line.take(k - a).push(line[k - a]));
                assert(r@ =~= r1 + line.take(k + 1 - a));
            }
            k = k + 1;
        }
        proof {
            assert(line.take(b - a) =~= line);
            assert(rest.skip(b - a) =~= v@.skip(b as int));
            if numbered {
                assert(r@ =~= r0 + numbered_line(ctr as nat, gw, line));
            } else {
                assert(r@ =~= r0 + blank_numbered_line(gw, line));
            }
            if number_nonblank {
                assert(spec_number_nonblank(rest, gw, ctr as nat) == (if has_ink(line) {
                    numbered_line(ctr as nat, gw, line) + spec_number_nonblank(
                        v@.skip(b as int),
                        gw,
                        (ctr + 1) as nat,
                    )
                } else {
                    blank_numbered_line(gw, line) + spec_number_nonblank(
                        v@.skip(b as int),
                        gw,
                        ctr as nat,
                    )
                }));
            } else {
                assert(spec_number_all(rest, gw, ctr as nat) == numbered_line(
                    ctr as nat,
                    gw,
                    line,
                ) + spec_number_all(v@.skip(b as int), gw, (ctr + 1) as nat));
            }
        }
        if numbered {
            ctr = ctr + 1;
        }
        proof {
            if number_nonblank {
                assert(r@ + spec_number_nonblank(v@.skip(b as int), gw, ctr as nat)
                    =~= spec_number_nonblank(v@, gw, 0));
            } else {
                assert(r@ + spec_number_all(v@.skip(b as int), gw, ctr as nat)
                    =~= spec_number_all(v@, gw, 0));
            }
        }
        a = b;
    }
    proof {
        assert(v@.skip(n as int) =~= Seq::<char>::empty());
    }
    r
}

} // verus!
