use vstd::prelude::*;
use vstd::string::*;

verus! {

/// Number of `'\n'` bytes in `b`.
pub open spec fn newline_count(b: Seq<u8>) -> nat
    decreases b.len(),
{
    if b.len() == 0 {
        0
    } else {
        newline_count(b.drop_last()) + if b.last() == 10u8 {
            1nat
        } else {
            0nat
        }
    }
}

pub proof fn lemma_newline_count_le(b: Seq<u8>)
    ensures
        newline_count(b) <= b.len(),
    decreases b.len(),
{
    if b.len() > 0 {
        lemma_newline_count_le(b.drop_last());
    }
}

/// Number of lines in `b`, as `str::lines` counts them: a final line needs no
/// terminating newline, and an empty text has none.
pub open spec fn line_count(b: Seq<u8>) -> nat {
    if b.len() == 0 {
        0
    } else if b.last() == 10u8 {
        newline_count(b)
    } else {
        newline_count(b) + 1
    }
}

/// The line number reported for a byte offset: the number of lines in the text
/// before it, with offset 0 on line 1.
pub open spec fn line_number(b: Seq<u8>, offset: int) -> nat {
    if offset == 0 {
        1
    } else {
        line_count(b.subrange(0, offset))
    }
}

/// The line number of byte `offset` of `source`.
pub fn line_number_at(source: &str, offset: usize) -> (r: usize)
    requires
        offset <= source.spec_bytes().len(),
    ensures
        r == line_number(source.spec_bytes(), offset as int),
{
    if offset == 0 {
        return 1;
    }
    let bytes = source.as_bytes();
    let mut count: usize = 0;
    let mut i: usize = 0;
    while i < offset
        invariant
            i <= offset,
            offset <= bytes@.len(),
            bytes@ == source.spec_bytes(),
            count == newline_count(bytes@.subrange(0, i as int)),
            count <= i,
        decreases offset - i,
    {
        assert(bytes@.subrange(0, i + 1).drop_last() =~= bytes@.subrange(0, i as int));
        if bytes[i] == 10u8 {
            count = count + 1;
        }
        i = i + 1;
    }
    if bytes[offset - 1] != 10u8 {
        assert(count <= offset - 1) by {
            assert(bytes@.subrange(0, offset as int).drop_last() =~= bytes@.subrange(0, offset - 1));
            lemma_newline_count_le(bytes@.subrange(0, offset - 1));
        }
        count = count + 1;
    }
    count
}

/// `p` names a file whose extension is `json`.
pub open spec fn has_json_extension(p: Seq<char>) -> bool {
    &&& p.len() >= 6
    &&& p.subrange(p.len() - 5, p.len() as int) == seq!['.', 'j', 's', 'o', 'n']
    &&& p[p.len() - 6] != '/'
}

pub fn is_json_path(p: &str) -> (r: bool)
    ensures
        r == has_json_extension(p@),
{
    let n = p.unicode_len();
    if n < 6 {
        return false;
    }
    let r = p.get_char(n - 5) == '.' && p.get_char(n - 4) == 'j' && p.get_char(n - 3) == 's'
        && p.get_char(n - 2) == 'o' && p.get_char(n - 1) == 'n' && p.get_char(n - 6) != '/';
    proof {
        let t = p@.subrange(n - 5, n as int);
        if r {
            assert(t =~= seq!['.', 'j', 's', 'o', 'n']);
        } else if t == seq!['.', 'j', 's', 'o', 'n'] {
            assert(t[0] == p@[n - 5]);
            assert(t[1] == p@[n - 4]);
            assert(t[2] == p@[n - 3]);
            assert(t[3] == p@[n - 2]);
            assert(t[4] == p@[n - 1]);
        }
    }
    r
}

/// The characters of `node_modules`.
pub open spec fn node_modules_marker() -> Seq<char> {
    seq!['n', 'o', 'd', 'e', '_', 'm', 'o', 'd', 'u', 'l', 'e', 's']
}

/// `t` occurs in `s` as a contiguous part.
pub open spec fn contains_seq(s: Seq<char>, t: Seq<char>) -> bool {
    exists|i: int| 0 <= i && i + t.len() <= s.len() && #[trigger] s.subrange(i, i + t.len()) == t
}

/// Whether the path lies under a `node_modules` directory, i.e. contains that word.
pub fn is_in_node_modules(p: &str) -> (r: bool)
    ensures
        r == contains_seq(p@, node_modules_marker()),
{
    let marker: Vec<char> = vec!['n', 'o', 'd', 'e', '_', 'm', 'o', 'd', 'u', 'l', 'e', 's'];
    assert(marker@ =~= node_modules_marker());
    let chars = chars_of(p);
    let n = chars.len();
    let m = marker.len();
    if n < m {
        proof {
            assert forall|i: int| 0 <= i && i + m <= n implies #[trigger] p@.subrange(i, i + m)
                != node_modules_marker() by {}
        }
        return false;
    }
    let mut i: usize = 0;
    while i <= n - m
        invariant
            chars@ == p@,
            n == p@.len(),
            m == 12,
            marker@ == node_modules_marker(),
            m <= n,
            i <= n - m + 1,
            forall|j: int| 0 <= j < i ==> #[trigger] p@.subrange(j, j + m) != node_modules_marker(),
        decreases n - i,
    {
        let mut k: usize = 0;
        while k < m && chars[i + k] == marker[k]
            invariant
                k <= m,
                m == 12,
                marker@ == node_modules_marker(),
                n == p@.len(),
                i + m <= n,
                chars@ == p@,
                forall|q: int| 0 <= q < k ==> chars@[i + q] == marker@[q],
            decreases m - k,
        {
            k = k + 1;
        }
        if k == m {
            assert(p@.subrange(i as int, i + m) =~= node_modules_marker());
            return true;
        }
        assert(p@.subrange(i as int, i + m)[k as int] != node_modules_marker()[k as int]);
        i = i + 1;
    }
    proof {
        assert forall|j: int| 0 <= j && j + m <= n implies #[trigger] p@.subrange(j, j + m)
            != node_modules_marker() by {}
    }
    false
}

/// The characters of `s`, one per element.
pub fn chars_of(s: &str) -> (r: Vec<char>)
    ensures
        r@ == s@,
{
    let n = s.unicode_len();
    let mut r: Vec<char> = Vec::new();
    let mut i: usize = 0;
    while i < n
        invariant
            n == s@.len(),
            i <= n,
            r@ == s@.subrange(0, i as int),
        decreases n - i,
    {
        r.push(s.get_char(i));
        i = i + 1;
        assert(r@ =~= s@.subrange(0, i as int));
    }
    assert(r@ =~= s@);
    r
}

} // verus!
