use vstd::prelude::*;

verus! {

/// Whether `c` has the Unicode `White_Space` property — the separator set
/// that base names are split on when counting dictionary tokens.
pub open spec fn is_space_char(c: char) -> bool {
    let u = c as u32;
    ||| u == 0x20
    ||| (0x09 <= u && u <= 0x0D)
    ||| u == 0x85
    ||| u == 0xA0
    ||| u == 0x1680
    ||| (0x2000 <= u && u <= 0x200A)
    ||| u == 0x2028
    ||| u == 0x2029
    ||| u == 0x202F
    ||| u == 0x205F
    ||| u == 0x3000
}

/// Runtime check for [`is_space_char`].
pub fn is_space(c: char) -> (r: bool)
    ensures
        r == is_space_char(c),
{
    let u = c as u32;
    u == 0x20 || (0x09 <= u && u <= 0x0D) || u == 0x85 || u == 0xA0 || u == 0x1680 || (0x2000 <= u
        && u <= 0x200A) || u == 0x2028 || u == 0x2029 || u == 0x202F || u == 0x205F || u == 0x3000
}

/// Whether `c` is an ASCII decimal digit, the digits accepted inside a
/// trailing ` (N)` duplicate marker.
pub open spec fn is_digit_char(c: char) -> bool {
    0x30 <= c as u32 && c as u32 <= 0x39
}

/// Whether `s` holds the character `c` anywhere.
pub open spec fn contains_char(s: Seq<char>, c: char) -> bool {
    exists|i: int| 0 <= i < s.len() && s[i] == c
}

/// Everything before the last `.` of `s`; `s` unchanged when it has no `.`.
///
/// The rule is purely "cut at the last dot", applied uniformly: a multi-dot
/// name loses only its final `.suffix`, and a name whose only dot leads
/// (`.hidden`) is cut down to the empty sequence.
pub open spec fn spec_without_extension(s: Seq<char>) -> Seq<char>
    decreases s.len(),
{
    if s.len() == 0 || !contains_char(s, '.') {
        s
    } else if s[s.len() - 1] == '.' {
        s.subrange(0, s.len() - 1)
    } else {
        spec_without_extension(s.subrange(0, s.len() - 1))
    }
}

proof fn lemma_without_extension_at(s: Seq<char>, j: int)
    requires
        0 <= j < s.len(),
        s[j] == '.',
        forall|m: int| j < m < s.len() ==> s[m] != '.',
    ensures
        spec_without_extension(s) == s.subrange(0, j),
    decreases s.len(),
{
    assert(contains_char(s, '.'));
    if j == s.len() - 1 {
    } else {
        let t = s.subrange(0, s.len() - 1);
        assert(forall|m: int| j < m < t.len() ==> t[m] != '.');
        lemma_without_extension_at(t, j);
        assert(t.subrange(0, j) =~= s.subrange(0, j));
    }
}

/// Strips a trailing "last-dot" extension: the result is everything before
/// the last `.` of `s`, or all of `s` when it has none.
pub fn without_extension(s: &str) -> (r: &str)
    ensures
        r@ == spec_without_extension(s@),
{
    let n = s.unicode_len();
    let mut i: usize = n;
    while i > 0
        invariant
            i <= n,
            n == s@.len(),
            forall|m: int| i <= m < n ==> s@[m] != '.',
        decreases i,
    {
        if s.get_char(i - 1) == '.' {
            let r = s.substring_char(0, i - 1);
            proof {
                lemma_without_extension_at(s@, i - 1);
            }
            return r;
        }
        i = i - 1;
    }
    assert(!contains_char(s@, '.'));
    s
}

/// `s` with its trailing path separators removed, along with any trailing
/// `.` segments (a lone `.` directly after a separator), repeatedly — the
/// tail-normalization the platform applies before naming a path's final
/// component. A `.` that starts the whole string is kept: it stands for the
/// current directory, not for a droppable segment.
pub open spec fn normalized_tail(s: Seq<char>) -> Seq<char>
    decreases s.len(),
{
    if s.len() == 0 {
        s
    } else if s[s.len() - 1] == '/' {
        normalized_tail(s.subrange(0, s.len() - 1))
    } else if s[s.len() - 1] == '.' && s.len() >= 2 && s[s.len() - 2] == '/' {
        normalized_tail(s.subrange(0, s.len() - 1))
    } else {
        s
    }
}

/// The index where the last `/`-separated segment of `s` starts: the
/// position right after the last `/`, or `0` when `s` has no `/`.
pub open spec fn segment_start(s: Seq<char>) -> int
    decreases s.len(),
{
    if s.len() == 0 {
        0
    } else if s[s.len() - 1] == '/' {
        s.len() as int
    } else {
        segment_start(s.subrange(0, s.len() - 1))
    }
}

/// The final path segment of `s`, under the platform's rules for naming a
/// path's file-name component: trailing separators and trailing `.` segments
/// are ignored, and there is no final segment — the result is `None` — when
/// what remains is empty (so for the empty string and for strings of
/// separators only), or is the current-directory name `.`, or ends in the
/// parent-directory name `..`.
pub open spec fn spec_file_name(s: Seq<char>) -> Option<Seq<char>> {
    let t = normalized_tail(s);
    let seg = t.subrange(segment_start(t), t.len() as int);
    if seg.len() == 0 {
        None
    } else if seg.len() == 1 && seg[0] == '.' {
        None
    } else if seg.len() == 2 && seg[0] == '.' && seg[1] == '.' {
        None
    } else {
        Some(seg)
    }
}

/// Extracts the final path segment of `s` — the candidate's bare filename —
/// or `None` when `s` has none, per [`spec_file_name`].
pub fn file_name(s: &str) -> (r: Option<&str>)
    ensures
        r is Some <==> spec_file_name(s@) is Some,
        r is Some ==> r.unwrap()@ == spec_file_name(s@).unwrap(),
{
    let n = s.unicode_len();
    proof {
        assert(s@.subrange(0, n as int) =~= s@);
    }
    let mut end: usize = n;
    loop
        invariant
            end <= n,
            n == s@.len(),
            normalized_tail(s@) == normalized_tail(s@.subrange(0, end as int)),
        ensures
            end <= n,
            n == s@.len(),
            normalized_tail(s@) == s@.subrange(0, end as int),
        decreases end,
    {
        let ghost prefix = s@.subrange(0, end as int);
        if end > 0 && s.get_char(end - 1) == '/' {
            proof {
                assert(prefix.subrange(0, prefix.len() - 1) =~= s@.subrange(0, end - 1));
            }
            end = end - 1;
        } else if end >= 2 && s.get_char(end - 1) == '.' && s.get_char(end - 2) == '/' {
            proof {
                assert(prefix.subrange(0, prefix.len() - 1) =~= s@.subrange(0, end - 1));
            }
            end = end - 1;
        } else {
            proof {
                if end == 0 {
                    assert(prefix =~= Seq::<char>::empty());
                }
                assert(normalized_tail(prefix) == prefix);
            }
            break ;
        }
    }
    let ghost t = s@.subrange(0, end as int);
    let mut start: usize = end;
    loop
        invariant
            start <= end <= n,
            n == s@.len(),
            t == s@.subrange(0, end as int),
            segment_start(t) == segment_start(s@.subrange(0, start as int)),
        ensures
            start <= end,
            start == segment_start(t),
        decreases start,
    {
        let ghost prefix = s@.subrange(0, start as int);
        if start > 0 && s.get_char(start - 1) != '/' {
            proof {
                assert(prefix.subrange(0, prefix.len() - 1) =~= s@.subrange(0, start - 1));
            }
            start = start - 1;
        } else {
            proof {
                if start == 0 {
                    assert(prefix =~= Seq::<char>::empty());
                }
                assert(segment_start(prefix) == start);
            }
            break ;
        }
    }
    let ghost seg = t.subrange(segment_start(t), t.len() as int);
    proof {
        assert(seg =~= s@.subrange(start as int, end as int));
    }
    let seg_len = end - start;
    if seg_len == 0 {
        return None;
    }
    if seg_len == 1 && s.get_char(start) == '.' {
        return None;
    }
    if seg_len == 2 && s.get_char(start) == '.' && s.get_char(start + 1) == '.' {
        return None;
    }
    let r = s.substring_char(start, end);
    proof {
        assert(r@ =~= seg);
    }
    Some(r)
}

/// The length of the run of non-whitespace characters that starts `s`: the
/// length of its first token when `s` starts with one, `0` otherwise.
pub open spec fn token_run(s: Seq<char>) -> int
    decreases s.len(),
{
    if s.len() == 0 || is_space_char(s[0]) {
        0
    } else {
        1 + token_run(s.subrange(1, s.len() as int))
    }
}

pub proof fn lemma_token_run_bounds(s: Seq<char>)
    ensures
        0 <= token_run(s) <= s.len(),
    decreases s.len(),
{
    if s.len() == 0 || is_space_char(s[0]) {
    } else {
        lemma_token_run_bounds(s.subrange(1, s.len() as int));
    }
}

/// `token_run(s)` is exactly `r` when the first `r` characters are
/// non-whitespace and the run stops there (end of `s`, or a whitespace
/// character).
pub proof fn lemma_token_run_exact(s: Seq<char>, r: int)
    requires
        0 <= r <= s.len(),
        forall|m: int| 0 <= m < r ==> !is_space_char(s[m]),
        r == s.len() || is_space_char(s[r]),
    ensures
        token_run(s) == r,
    decreases r,
{
    if r == 0 {
    } else {
        let t = s.subrange(1, s.len() as int);
        assert(forall|m: int| 0 <= m < r - 1 ==> t[m] == s[m + 1] && !is_space_char(t[m]));
        lemma_token_run_exact(t, r - 1);
    }
}

/// The whitespace-separated tokens of `s`, in order: maximal runs of
/// non-whitespace characters, with no empty tokens.
pub open spec fn spec_tokens(s: Seq<char>) -> Seq<Seq<char>>
    decreases s.len(),
{
    if s.len() == 0 {
        Seq::empty()
    } else if is_space_char(s[0]) {
        spec_tokens(s.subrange(1, s.len() as int))
    } else {
        proof {
            lemma_token_run_bounds(s.subrange(1, s.len() as int));
            lemma_token_run_bounds(s);
        }
        seq![s.subrange(0, token_run(s))] + spec_tokens(s.subrange(token_run(s), s.len() as int))
    }
}

/// Whether two strings hold the same characters.
pub fn str_eq(a: &str, b: &str) -> (r: bool)
    ensures
        r == (a@ == b@),
{
    let an = a.unicode_len();
    let bn = b.unicode_len();
    if an != bn {
        return false;
    }
    let mut i: usize = 0;
    while i < an
        invariant
            i <= an,
            an == a@.len(),
            an == b@.len(),
            forall|m: int| 0 <= m < i ==> a@[m] == b@[m],
        decreases an - i,
    {
        if a.get_char(i) != b.get_char(i) {
            return false;
        }
        i = i + 1;
    }
    proof {
        assert(a@ =~= b@);
    }
    true
}

/// Whether the characters of `s` end in a duplicate marker: at least one
/// arbitrary character, a space, `(`, one or more ASCII decimal digits, and a
/// closing `)` that is the final character. `k` is the position of the first
/// digit.
pub open spec fn marker_at(s: Seq<char>, k: int) -> bool {
    &&& 3 <= k
    &&& k + 2 <= s.len()
    &&& s[k - 2] == ' '
    &&& s[k - 1] == '('
    &&& s[s.len() - 1] == ')'
    &&& forall|m: int| k <= m < s.len() - 1 ==> is_digit_char(s[m])
}

/// Whether `s` ends in a ` (N)` duplicate marker with at least one character
/// before the space — the shape file managers append to dodge a name
/// collision, suggesting the name is machine-generated.
pub open spec fn has_marker(s: Seq<char>) -> bool {
    exists|k: int| marker_at(s, k)
}

} // verus!
