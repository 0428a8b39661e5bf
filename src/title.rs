//! Display titles: action names that look like menu paths (`Playback/Stop
//! After Album`) are shown by their last segment, where `\/` stands for a
//! slash inside a segment.

use vstd::prelude::*;

verus! {

/// `s[i]` is a slash with no backslash right before it.
pub open spec fn is_unescaped_slash(s: Seq<char>, i: int) -> bool {
    s[i] == '/' && (i == 0 || s[i - 1] != '\\')
}

/// The last unescaped slash among the first `n` characters of `s`.
pub open spec fn last_unescaped_slash(s: Seq<char>, n: int) -> Option<int>
    decreases n,
{
    if n <= 0 {
        None
    } else if is_unescaped_slash(s, n - 1) {
        Some(n - 1)
    } else {
        last_unescaped_slash(s, n - 1)
    }
}

/// What follows the last unescaped slash of `s`; all of `s` when it has none.
pub open spec fn last_segment(s: Seq<char>) -> Seq<char> {
    match last_unescaped_slash(s, s.len() as int) {
        Some(j) => s.skip(j + 1),
        None => s,
    }
}

/// `s` with each `\/` read as `/`, from left to right.
pub open spec fn unescape_slashes(s: Seq<char>) -> Seq<char>
    decreases s.len(),
{
    if s.len() == 0 {
        s
    } else if s.len() >= 2 && s[0] == '\\' && s[1] == '/' {
        seq!['/'] + unescape_slashes(s.skip(2))
    } else {
        seq![s[0]] + unescape_slashes(s.drop_first())
    }
}

/// The title under which an action is shown: the last segment of its
/// path, with escaped slashes read as slashes.
pub open spec fn display_title(raw: Seq<char>) -> Seq<char> {
    unescape_slashes(last_segment(raw))
}

/// The part of `s` after its last slash that no backslash escapes, or all
/// of `s` when there is no such slash.
pub fn last_segment_after_unescaped_slash(s: &str) -> (r: &str)
    ensures
        r@ == last_segment(s@),
{
    let n = s.unicode_len();
    let mut i: usize = n;
    while i > 0
        invariant
            i <= n == s@.len(),
            last_unescaped_slash(s@, n as int) == last_unescaped_slash(s@, i as int),
        decreases i,
    {
        let ch = s.get_char(i - 1);
        if ch == '/' && (i == 1 || s.get_char(i - 2) != '\\') {
            return s.substring_char(i, n);
        }
        i = i - 1;
    }
    assert(s@.subrange(0, n as int) =~= s@);
    s.substring_char(0, n)
}

/// `s` with each `\/` replaced by `/`.
pub fn unescape_slashes_in(s: &str) -> (r: String)
    ensures
        r@ == unescape_slashes(s@),
{
    let n = s.unicode_len();
    let mut out = String::new();
    let mut i: usize = 0;
    assert(s@.skip(0) =~= s@);
    assert(out@ + unescape_slashes(s@) =~= unescape_slashes(s@));
    while i < n
        invariant
            i <= n == s@.len(),
            unescape_slashes(s@) == out@ + unescape_slashes(s@.skip(i as int)),
        decreases n - i,
    {
        let ghost t = s@.skip(i as int);
        let ghost before = out@;
        if i + 1 < n && s.get_char(i) == '\\' && s.get_char(i + 1) == '/' {
            proof {
                reveal_strlit("/");
                assert(t.skip(2) =~= s@.skip(i + 2));
            }
            out.append("/");
            i = i + 2;
        } else {
            let piece = s.substring_char(i, i + 1);
            proof {
                assert(piece@ =~= seq![t[0]]);
                assert(t.drop_first() =~= s@.skip(i + 1));
            }
            out.append(piece);
            i = i + 1;
        }
        assert(before + (out@.skip(before.len() as int) + unescape_slashes(s@.skip(i as int)))
            =~= out@ + unescape_slashes(s@.skip(i as int)));
    }
    assert(s@.skip(n as int).len() == 0);
    assert(out@ + Seq::<char>::empty() =~= out@);
    out
}

/// The title under which an action named or titled `raw` is shown.
pub fn display_title_of(raw: &str) -> (r: String)
    ensures
        r@ == display_title(raw@),
{
    unescape_slashes_in(last_segment_after_unescaped_slash(raw))
}

} // verus!
