//! Console-answer parsing and output-path derivation: the rules behind
//! the prompts and behind every file name a batch run writes.

use vstd::prelude::*;

use crate::error::ToolError;

verus! {

/// The position of the last occurrence of `c` in `s`, or -1 when `s`
/// holds no `c`.
pub open spec fn last_index_of(s: Seq<char>, c: char) -> int
    decreases s.len(),
{
    if s.len() == 0 {
        -1
    } else if s.last() == c {
        s.len() - 1
    } else {
        last_index_of(s.drop_last(), c)
    }
}

/// The last occurrence stays inside the sequence and really holds `c`.
pub proof fn lemma_last_index_of_bounds(s: Seq<char>, c: char)
    ensures
        -1 <= last_index_of(s, c) < s.len(),
        last_index_of(s, c) >= 0 ==> s[last_index_of(s, c)] == c,
    decreases s.len(),
{
    if s.len() > 0 && s.last() != c {
        lemma_last_index_of_bounds(s.drop_last(), c);
    }
}

/// Finds the last occurrence of `c` in `s`.
#[verifier::loop_isolation(false)]
pub fn rfind_char(s: &str, c: char) -> (r: Option<usize>)
    ensures
        r is Some ==> r->Some_0 == last_index_of(s@, c),
        r is None ==> last_index_of(s@, c) == -1,
{
    let n = s.unicode_len();
    proof {
        assert(s@.take(n as int) =~= s@);
    }
    let mut i = n;
    while i > 0
        invariant
            i <= n,
            last_index_of(s@, c) == last_index_of(s@.take(i as int), c),
        decreases i,
    {
        let ch = s.get_char(i - 1);
        proof {
            assert(s@.take(i as int).last() == s@[i - 1]);
            assert(s@.take(i as int).drop_last() =~= s@.take(i - 1));
        }
        if ch == c {
            proof {
                lemma_last_index_of_bounds(s@, c);
            }
            return Some(i - 1);
        }
        i = i - 1;
    }
    proof {
        assert(s@.take(0) =~= Seq::<char>::empty());
    }
    None
}

/// The directory part of a path: everything before the last separator,
/// or the current directory when the path has no separator.
pub open spec fn spec_parent_dir(path: Seq<char>) -> Seq<char> {
    if last_index_of(path, '/') >= 0 {
        path.take(last_index_of(path, '/'))
    } else {
        seq!['.']
    }
}

/// The file-name part of a path: everything after the last separator,
/// or the whole path when it has no separator.
pub open spec fn spec_file_name(path: Seq<char>) -> Seq<char> {
    path.skip(last_index_of(path, '/') + 1)
}

/// The output file name: the original name when overwriting, otherwise
/// the tool's prefix, an underscore, and the original name.
pub open spec fn spec_output_file_name(name: Seq<char>, overwrite: bool, prefix: Seq<char>) -> Seq<
    char,
> {
    if overwrite {
        name
    } else {
        prefix + seq!['_'] + name
    }
}

/// The output path for one source file: the source's directory, a
/// separator, and the output file name.
pub open spec fn spec_output_path(path: Seq<char>, overwrite: bool, prefix: Seq<char>) -> Seq<
    char,
> {
    spec_parent_dir(path) + seq!['/'] + spec_output_file_name(
        spec_file_name(path),
        overwrite,
        prefix,
    )
}

/// As `spec_output_path`, but the file name's extension — everything
/// from its last dot — is dropped and the forced extension appended,
/// whether or not the run overwrites.
pub open spec fn spec_output_path_with_override(
    path: Seq<char>,
    overwrite: bool,
    prefix: Seq<char>,
    ext: Seq<char>,
) -> Seq<char> {
    let stem = spec_file_name(path).take(last_index_of(spec_file_name(path), '.'));
    spec_parent_dir(path) + seq!['/'] + spec_output_file_name(stem, overwrite, prefix) + seq!['.']
        + ext
}

/// Derives the output path for one source file under the uniform naming
/// rule every transform shares.
pub fn derive_output_path(path: &str, overwrite: bool, prefix: &str) -> (r: String)
    ensures
        r@ == spec_output_path(path@, overwrite, prefix@),
{
    proof {
        reveal_strlit(".");
        reveal_strlit("/");
        reveal_strlit("_");
        lemma_last_index_of_bounds(path@, '/');
    }
    let n = path.unicode_len();
    let slash = rfind_char(path, '/');
    let mut out = String::new();
    match slash {
        Some(i) => out.append(path.substring_char(0, i)),
        None => out.append("."),
    }
    out.append("/");
    if !overwrite {
        out.append(prefix);
        out.append("_");
    }
    match slash {
        Some(i) => out.append(path.substring_char(i + 1, n)),
        None => out.append(path),
    }
    proof {
        assert("."@ =~= seq!['.']);
        assert("/"@ =~= seq!['/']);
        assert("_"@ =~= seq!['_']);
        assert(out@ =~= spec_output_path(path@, overwrite, prefix@));
    }
    out
}

/// Derives the output path for one source file when the tool forces the
/// output extension. The source file name must have an extension to
/// strip; the caller checks that before calling.
#[verifier::rlimit(50)]
pub fn derive_output_path_with_override(
    path: &str,
    overwrite: bool,
    prefix: &str,
    extension: &str,
) -> (r: String)
    requires
        last_index_of(spec_file_name(path@), '.') >= 0,
    ensures
        r@ == spec_output_path_with_override(path@, overwrite, prefix@, extension@),
{
    proof {
        reveal_strlit(".");
        reveal_strlit("/");
        reveal_strlit("_");
        lemma_last_index_of_bounds(path@, '/');
    }
    let n = path.unicode_len();
    let slash = rfind_char(path, '/');
    let name = match slash {
        Some(i) => path.substring_char(i + 1, n),
        None => path,
    };
    proof {
        assert(name@ =~= spec_file_name(path@));
        lemma_last_index_of_bounds(name@, '.');
    }
    let dot = rfind_char(name, '.');
    let stem = match dot {
        Some(d) => name.substring_char(0, d),
        None => name,
    };
    proof {
        assert(stem@ =~= spec_file_name(path@).take(
            last_index_of(spec_file_name(path@), '.'),
        ));
    }
    let mut out = String::new();
    match slash {
        Some(i) => out.append(path.substring_char(0, i)),
        None => out.append("."),
    }
    out.append("/");
    if !overwrite {
        out.append(prefix);
        out.append("_");
    }
    out.append(stem);
    out.append(".");
    out.append(extension);
    proof {
        assert("."@ =~= seq!['.']);
        assert("/"@ =~= seq!['/']);
        assert("_"@ =~= seq!['_']);
        assert(out@ =~= spec_output_path_with_override(path@, overwrite, prefix@, extension@));
    }
    out
}

/// The length of `s` once every trailing carriage return and line feed
/// is dropped.
pub open spec fn spec_trimmed_len(s: Seq<char>) -> int
    decreases s.len(),
{
    if s.len() > 0 && (s.last() == '\r' || s.last() == '\n') {
        spec_trimmed_len(s.drop_last())
    } else {
        s.len() as int
    }
}

/// Drops every trailing carriage return and line feed from one line of
/// console input.
#[verifier::loop_isolation(false)]
pub fn trim_line_breaks<'a>(s: &'a str) -> (r: &'a str)
    ensures
        r@ == s@.take(spec_trimmed_len(s@)),
{
    let n = s.unicode_len();
    proof {
        assert(s@.take(n as int) =~= s@);
    }
    let mut i = n;
    while i > 0
        invariant
            i <= n,
            spec_trimmed_len(s@) == spec_trimmed_len(s@.take(i as int)),
        decreases i,
    {
        let ch = s.get_char(i - 1);
        proof {
            assert(s@.take(i as int).last() == s@[i - 1]);
            assert(s@.take(i as int).drop_last() =~= s@.take(i - 1));
        }
        if ch != '\r' && ch != '\n' {
            return s.substring_char(0, i);
        }
        i = i - 1;
    }
    proof {
        assert(s@.take(0) =~= Seq::<char>::empty());
    }
    s.substring_char(0, 0)
}

/// Character-by-character string equality.
#[verifier::loop_isolation(false)]
pub fn str_eq(a: &str, b: &str) -> (r: bool)
    ensures
        r == (a@ == b@),
{
    let na = a.unicode_len();
    let nb = b.unicode_len();
    if na != nb {
        return false;
    }
    let mut i: usize = 0;
    while i < na
        invariant
            i <= na,
            forall|j: int| 0 <= j < i ==> a@[j] == b@[j],
        decreases na - i,
    {
        if a.get_char(i) != b.get_char(i) {
            return false;
        }
        i = i + 1;
    }
    proof {
        assert(a@ =~= b@);
    }
    true
}

/// Whether `c` is a decimal digit.
pub open spec fn is_digit(c: char) -> bool {
    48 <= c as int <= 57
}

/// The value of one decimal digit.
pub open spec fn digit_val(c: char) -> int {
    c as int - 48
}

/// Whether `s` is a run of one or more decimal digits.
pub open spec fn is_decimal_string(s: Seq<char>) -> bool {
    s.len() > 0 && forall|i: int| 0 <= i < s.len() ==> #[trigger] is_digit(s[i])
}

/// The number a run of decimal digits denotes.
pub open spec fn decimal_value(s: Seq<char>) -> int
    decreases s.len(),
{
    if s.len() == 0 {
        0
    } else {
        decimal_value(s.drop_last()) * 10 + digit_val(s.last())
    }
}

/// A run of digits denotes a non-negative number.
pub proof fn lemma_decimal_value_nonneg(s: Seq<char>)
    requires
        forall|i: int| 0 <= i < s.len() ==> #[trigger] is_digit(s[i]),
    ensures
        decimal_value(s) >= 0,
    decreases s.len(),
{
    if s.len() > 0 {
        assert forall|i: int| 0 <= i < s.len() - 1 implies #[trigger] is_digit(
            s.drop_last()[i],
        ) by {
            assert(s.drop_last()[i] == s[i]);
            assert(is_digit(s[i]));
        }
        lemma_decimal_value_nonneg(s.drop_last());
        assert(is_digit(s[s.len() - 1]));
    }
}

/// A run of digits denotes a number at least as large as any of its
/// prefixes denotes.
pub proof fn lemma_decimal_prefix_le(s: Seq<char>, k: int)
    requires
        forall|i: int| 0 <= i < s.len() ==> #[trigger] is_digit(s[i]),
        0 <= k <= s.len(),
    ensures
        0 <= decimal_value(s.take(k)) <= decimal_value(s),
    decreases s.len() - k,
{
    assert forall|i: int| 0 <= i < k implies #[trigger] is_digit(s.take(k)[i]) by {
        assert(s.take(k)[i] == s[i]);
        assert(is_digit(s[i]));
    }
    lemma_decimal_value_nonneg(s.take(k));
    if k == s.len() {
        assert(s.take(k) =~= s);
    } else {
        lemma_decimal_prefix_le(s, k + 1);
        assert(s.take(k + 1).drop_last() =~= s.take(k));
        assert(s.take(k + 1).last() == s[k]);
        assert(is_digit(s[k]));
    }
}

/// Reads a decimal number from one line of console input. Anything but
/// a run of digits denoting a number that fits 32 bits is an invalid
/// parameter.
#[verifier::loop_isolation(false)]
pub fn parse_u32(s: &str) -> (r: Result<u32, ToolError>)
    ensures
        is_decimal_string(s@) && decimal_value(s@) <= u32::MAX ==> r == Ok::<u32, ToolError>(
            decimal_value(s@) as u32,
        ),
        !(is_decimal_string(s@) && decimal_value(s@) <= u32::MAX) ==> r == Err::<u32, ToolError>(
            ToolError::InvalidParameter,
        ),
{
    let n = s.unicode_len();
    if n == 0 {
        return Err(ToolError::InvalidParameter);
    }
    let mut acc: u64 = 0;
    let mut i: usize = 0;
    while i < n
        invariant
            i <= n,
            forall|j: int| 0 <= j < i ==> #[trigger] is_digit(s@[j]),
            acc == decimal_value(s@.take(i as int)),
            acc <= u32::MAX,
        decreases n - i,
    {
        let c = s.get_char(i);
        let code = c as u32;
        if code < 48 || code > 57 {
            proof {
                assert(!is_digit(s@[i as int]));
            }
            return Err(ToolError::InvalidParameter);
        }
        proof {
            assert(s@.take(i + 1).drop_last() =~= s@.take(i as int));
            assert(s@.take(i + 1).last() == s@[i as int]);
        }
        acc = acc * 10 + (code - 48) as u64;
        if acc > u32::MAX as u64 {
            proof {
                if is_decimal_string(s@) {
                    lemma_decimal_prefix_le(s@, i + 1);
                }
            }
            return Err(ToolError::InvalidParameter);
        }
        i = i + 1;
    }
    proof {
        assert(s@.take(n as int) =~= s@);
    }
    Ok(acc as u32)
}

/// Whether `s` is exactly an affirmative console answer.
pub open spec fn spec_yes(s: Seq<char>) -> bool {
    s == seq!['y'] || s == seq!['Y']
}

/// Whether `s` is exactly a negative console answer.
pub open spec fn spec_no(s: Seq<char>) -> bool {
    s == seq!['n'] || s == seq!['N']
}

/// Interprets one console answer to a yes/no question. Exactly `y`, `Y`,
/// `n` and `N` are accepted; any other answer is invalid input.
pub fn parse_boolean_input(s: &str) -> (r: Result<bool, ToolError>)
    ensures
        spec_yes(s@) ==> r == Ok::<bool, ToolError>(true),
        spec_no(s@) ==> r == Ok::<bool, ToolError>(false),
        !spec_yes(s@) && !spec_no(s@) ==> r == Err::<bool, ToolError>(ToolError::InvalidInput),
{
    proof {
        reveal_strlit("y");
        reveal_strlit("Y");
        reveal_strlit("n");
        reveal_strlit("N");
        assert("y"@ =~= seq!['y']);
        assert("Y"@ =~= seq!['Y']);
        assert("n"@ =~= seq!['n']);
        assert("N"@ =~= seq!['N']);
        assert(seq!['y'][0] == 'y');
        assert(seq!['Y'][0] == 'Y');
        assert(seq!['n'][0] == 'n');
        assert(seq!['N'][0] == 'N');
    }
    if str_eq(s, "y") || str_eq(s, "Y") {
        Ok(true)
    } else if str_eq(s, "n") || str_eq(s, "N") {
        Ok(false)
    } else {
        Err(ToolError::InvalidInput)
    }
}

} // verus!
