use vstd::prelude::*;

verus! {

/// The index of the first character at or after `i` that is not `_`.
pub open spec fn first_kept(s: Seq<char>, i: int) -> int
    decreases s.len() - i,
{
    if 0 <= i < s.len() && s[i] == '_' {
        first_kept(s, i + 1)
    } else {
        i
    }
}

/// The index after the last character before `j` that is not `_`.
pub open spec fn last_kept(s: Seq<char>, j: int) -> int
    decreases j,
{
    if 0 < j <= s.len() && s[j - 1] == '_' {
        last_kept(s, j - 1)
    } else {
        j
    }
}

/// `s` without its leading and trailing underscores.
pub open spec fn trimmed(s: Seq<char>) -> Seq<char> {
    let lo = first_kept(s, 0);
    let hi = last_kept(s, s.len() as int);
    if lo >= hi {
        Seq::empty()
    } else {
        s.subrange(lo, hi)
    }
}

/// `s` with each underscore turned into a hyphen.
pub open spec fn dashed(s: Seq<char>) -> Seq<char> {
    s.map_values(|c: char| if c == '_' { '-' } else { c })
}

/// An attribute name as written in markup: surrounding underscores dropped,
/// the others turned into hyphens.
pub fn convert_name(name: &str) -> (r: String)
    ensures
        r@ == dashed(trimmed(name@)),
{
    let ghost s = name@;
    let n = name.unicode_len();
    let mut lo: usize = 0;
    while lo < n && name.get_char(lo) == '_'
        invariant
            n == s.len(),
            s == name@,
            lo <= n,
            first_kept(s, 0) == first_kept(s, lo as int),
        decreases n - lo,
    {
        lo = lo + 1;
    }
    let mut hi: usize = n;
    while hi > 0 && name.get_char(hi - 1) == '_'
        invariant
            n == s.len(),
            s == name@,
            hi <= n,
            last_kept(s, n as int) == last_kept(s, hi as int),
        decreases hi,
    {
        hi = hi - 1;
    }
    let mut out = String::new();
    if lo >= hi {
        assert(out@ =~= dashed(trimmed(s)));
        return out;
    }
    let ghost t = s.subrange(lo as int, hi as int);
    let dash = "-";
    proof {
        reveal_strlit("-");
    }
    let mut i: usize = lo;
    while i < hi
        invariant
            n == s.len(),
            s == name@,
            lo <= i <= hi <= n,
            t == s.subrange(lo as int, hi as int),
            dash@ == seq!['-'],
            out@ == dashed(s.subrange(lo as int, i as int)),
        decreases hi - i,
    {
        let c = name.get_char(i);
        if c == '_' {
            out.append(dash);
        } else {
            out.append(name.substring_char(i, i + 1));
        }
        assert(s.subrange(lo as int, i + 1) =~= s.subrange(lo as int, i as int).push(c));
        assert(out@ =~= dashed(s.subrange(lo as int, i + 1)));
        i = i + 1;
    }
    out
}

} // verus!
