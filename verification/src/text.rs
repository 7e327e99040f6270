use vstd::prelude::*;

verus! {

/// Lexicographic order on character sequences: `a` comes strictly before `b`.
pub open spec fn seq_char_lt(a: Seq<char>, b: Seq<char>) -> bool
    decreases a.len(),
{
    if b.len() == 0 {
        false
    } else if a.len() == 0 {
        true
    } else if a[0] != b[0] {
        (a[0] as u32) < (b[0] as u32)
    } else {
        seq_char_lt(a.skip(1), b.skip(1))
    }
}

pub proof fn lemma_seq_char_lt_asymmetric(a: Seq<char>, b: Seq<char>)
    requires
        seq_char_lt(a, b),
    ensures
        !seq_char_lt(b, a),
    decreases a.len(),
{
    if b.len() == 0 {
    } else if a.len() == 0 {
    } else if a[0] != b[0] {
    } else {
        lemma_seq_char_lt_asymmetric(a.skip(1), b.skip(1));
    }
}

pub proof fn lemma_char_cast_injective(x: char, y: char)
    requires
        (x as u32) == (y as u32),
    ensures
        x == y,
{
}

pub proof fn lemma_seq_char_lt_irreflexive(a: Seq<char>)
    ensures
        !seq_char_lt(a, a),
    decreases a.len(),
{
    if a.len() > 0 {
        lemma_seq_char_lt_irreflexive(a.skip(1));
    }
}

pub proof fn lemma_seq_char_lt_connected(a: Seq<char>, b: Seq<char>)
    requires
        !seq_char_lt(a, b),
        !seq_char_lt(b, a),
    ensures
        a == b,
    decreases a.len(),
{
    if b.len() == 0 {
        assert(a.len() == 0);
        assert(a =~= b);
    } else if a.len() == 0 {
        assert(false);
    } else {
        assert(a[0] == b[0]) by {
            if a[0] != b[0] {
                assert((a[0] as u32) >= (b[0] as u32));
                assert((b[0] as u32) >= (a[0] as u32));
                assert((a[0] as u32) == (b[0] as u32));
                lemma_char_cast_injective(a[0], b[0]);
                assert(false);
            }
        }
        lemma_seq_char_lt_connected(a.skip(1), b.skip(1));
        assert(a.skip(1) == b.skip(1));
        assert(a.len() == b.len());
        assert forall|k: int| 0 <= k < a.len() implies a[k] == b[k] by {
            if k >= 1 {
                assert(a[k] == a.skip(1)[k - 1]);
                assert(b[k] == b.skip(1)[k - 1]);
            }
        }
        assert(a =~= b);
    }
}

pub proof fn lemma_seq_char_lt_transitive(a: Seq<char>, b: Seq<char>, c: Seq<char>)
    requires
        seq_char_lt(a, b),
        seq_char_lt(b, c),
    ensures
        seq_char_lt(a, c),
    decreases a.len(),
{
    if a.len() == 0 {
        assert(c.len() > 0);
    } else {
        assert(b.len() > 0 && c.len() > 0);
        if a[0] != b[0] {
            if b[0] != c[0] {
                assert((a[0] as u32) < (c[0] as u32));
                assert(a[0] != c[0]);
            } else {
                assert((a[0] as u32) < (c[0] as u32));
                assert(a[0] != c[0]);
            }
        } else {
            if b[0] != c[0] {
                assert((a[0] as u32) < (c[0] as u32));
                assert(a[0] != c[0]);
            } else {
                lemma_seq_char_lt_transitive(a.skip(1), b.skip(1), c.skip(1));
            }
        }
    }
}

/// The position of the first occurrence of `c` in `s`, or `s.len()` if absent.
pub open spec fn first_index_of(s: Seq<char>, c: char) -> int
    decreases s.len(),
{
    if s.len() == 0 {
        0
    } else if s[0] == c {
        0
    } else {
        1 + first_index_of(s.skip(1), c)
    }
}

pub broadcast proof fn lemma_first_index_of(s: Seq<char>, c: char)
    ensures
        0 <= #[trigger] first_index_of(s, c) <= s.len(),
        forall|k: int| 0 <= k < first_index_of(s, c) ==> s[k] != c,
        first_index_of(s, c) < s.len() ==> s[first_index_of(s, c)] == c,
    decreases s.len(),
{
    if s.len() == 0 {
    } else if s[0] == c {
    } else {
        lemma_first_index_of(s.skip(1), c);
        assert(forall|k: int| 1 <= k < first_index_of(s, c) ==> s[k] == s.skip(1)[k - 1]);
    }
}

/// Compare two string slices for character-wise equality.
pub fn str_eq(a: &str, b: &str) -> (r: bool)
    ensures
        r == (a@ == b@),
{
    let la = a.unicode_len();
    let lb = b.unicode_len();
    if la != lb {
        return false;
    }
    let mut i: usize = 0;
    while i < la
        invariant
            la == a@.len(),
            la == b@.len(),
            0 <= i <= la,
            forall|k: int| 0 <= k < i ==> a@[k] == b@[k],
        decreases la - i,
    {
        if a.get_char(i) != b.get_char(i) {
            return false;
        }
        i += 1;
    }
    proof {
        assert(a@ =~= b@);
    }
    true
}

pub proof fn lemma_seq_char_lt_common_prefix(a: Seq<char>, b: Seq<char>, i: int)
    requires
        0 <= i <= a.len(),
        i <= b.len(),
        forall|k: int| 0 <= k < i ==> a[k] == b[k],
    ensures
        seq_char_lt(a, b) == seq_char_lt(a.skip(i), b.skip(i)),
    decreases i,
{
    if i == 0 {
        assert(a.skip(0) =~= a);
        assert(b.skip(0) =~= b);
    } else {
        assert(a[0] == b[0]);
        lemma_seq_char_lt_common_prefix(a.skip(1), b.skip(1), i - 1);
        assert(a.skip(1).skip(i - 1) =~= a.skip(i));
        assert(b.skip(1).skip(i - 1) =~= b.skip(i));
        assert(forall|k: int| 0 <= k < i - 1 ==> a.skip(1)[k] == b.skip(1)[k]);
    }
}

/// Decide the lexicographic order between two string slices.
pub fn str_lt(a: &str, b: &str) -> (r: bool)
    ensures
        r == seq_char_lt(a@, b@),
{
    let la = a.unicode_len();
    let lb = b.unicode_len();
    let mut i: usize = 0;
    while i < la && i < lb
        invariant
            la == a@.len(),
            lb == b@.len(),
            0 <= i <= la,
            0 <= i <= lb,
            forall|k: int| 0 <= k < i ==> a@[k] == b@[k],
        decreases la - i,
    {
        let ca = a.get_char(i);
        let cb = b.get_char(i);
        if ca != cb {
            proof {
                lemma_seq_char_lt_common_prefix(a@, b@, i as int);
                assert(a@.skip(i as int)[0] == ca);
                assert(b@.skip(i as int)[0] == cb);
            }
            return (ca as u32) < (cb as u32);
        }
        i += 1;
    }
    proof {
        lemma_seq_char_lt_common_prefix(a@, b@, i as int);
        assert(a@.skip(i as int).len() == la - i);
        assert(b@.skip(i as int).len() == lb - i);
    }
    la < lb
}

/// The position of the first occurrence of `c` in `s`, or its length if absent.
pub fn find_char(s: &str, c: char) -> (j: usize)
    ensures
        j as int == first_index_of(s@, c),
        j <= s@.len(),
{
    let len = s.unicode_len();
    let mut i: usize = 0;
    while i < len
        invariant
            len == s@.len(),
            0 <= i <= len,
            forall|k: int| 0 <= k < i ==> s@[k] != c,
        decreases len - i,
    {
        if s.get_char(i) == c {
            proof {
                lemma_first_index_of(s@, c);
            }
            return i;
        }
        i += 1;
    }
    proof {
        lemma_first_index_of(s@, c);
    }
    len
}

/// The views of a sequence of strings, element by element.
pub open spec fn str_models(s: Seq<String>) -> Seq<Seq<char>> {
    s.map_values(|x: String| x@)
}

pub proof fn lemma_str_models_push(before: Seq<String>, x: String)
    ensures
        str_models(before.push(x)) == str_models(before).push(x@),
{
    assert(str_models(before.push(x)) =~= str_models(before).push(x@)) by {
        assert forall|t: int| 0 <= t < before.len() + 1 implies str_models(before.push(x))[t]
            == str_models(before).push(x@)[t] by {
            if t < before.len() {
                assert(before.push(x)[t] == before[t]);
            } else {
                assert(before.push(x)[t] == x);
            }
        }
    }
}

/// Remove one carriage return from the end of a line, if present.
pub open spec fn strip_trailing_cr(t: Seq<char>) -> Seq<char> {
    if t.len() > 0 && t[t.len() - 1] == '\r' {
        t.take(t.len() - 1)
    } else {
        t
    }
}

/// The position of the first line break in `s`, bounded by its length.
pub open spec fn line_break_at(s: Seq<char>) -> int {
    let j = first_index_of(s, '\n');
    if j > s.len() {
        s.len() as int
    } else if j < 0 {
        0
    } else {
        j
    }
}

/// Split text into lines the way the underlying tool's output is read:
/// lines end at a newline (a carriage return just before it is dropped),
/// and a trailing newline does not open an empty final line.
pub open spec fn split_lines(s: Seq<char>) -> Seq<Seq<char>>
    decreases s.len(),
{
    if s.len() == 0 {
        Seq::empty()
    } else {
        let j = line_break_at(s);
        if j == s.len() {
            seq![s]
        } else {
            seq![strip_trailing_cr(s.take(j))] + split_lines(s.skip(j + 1))
        }
    }
}

/// Split a string slice into its lines.
pub fn split_lines_exec(s: &str) -> (r: Vec<String>)
    ensures
        str_models(r@) == split_lines(s@),
    decreases s@.len(),
{
    broadcast use lemma_first_index_of;

    let len = s.unicode_len();
    let mut r: Vec<String> = Vec::new();
    if len == 0 {
        proof {
            assert(str_models(r@) =~= split_lines(s@));
        }
        return r;
    }
    let j = find_char(s, '\n');
    if j == len {
        r.push(s.to_owned());
        proof {
            assert(str_models(r@) =~= seq![s@]);
        }
        return r;
    }
    let end: usize = if j > 0 && s.get_char(j - 1) == '\r' {
        j - 1
    } else {
        j
    };
    let line = s.substring_char(0, end).to_owned();
    proof {
        assert(s@.subrange(0, end as int) =~= s@.take(end as int));
        if end < j {
            assert(s@.take(j as int)[j - 1] == s@[j - 1]);
            assert(s@.take(j as int).take(j - 1) =~= s@.take(j - 1));
        } else {
            if j > 0 {
                assert(s@.take(j as int)[j - 1] == s@[j - 1]);
            }
        }
        assert(line@ == strip_trailing_cr(s@.take(j as int)));
    }
    let rest = s.substring_char(j + 1, len);
    let mut tail_lines = split_lines_exec(rest);
    proof {
        assert(s@.subrange(j + 1, len as int) =~= s@.skip(j + 1));
    }
    r.push(line);
    r.append(&mut tail_lines);
    proof {
        assert(str_models(r@) =~= seq![strip_trailing_cr(s@.take(j as int))]
            + split_lines(s@.skip(j + 1)));
    }
    r
}


} // verus!
