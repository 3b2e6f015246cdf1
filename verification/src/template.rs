//! The template grammar: a plain prefix, exactly one placeholder token
//! (`{id}` or `{s}`), and a plain suffix, where plain characters are
//! everything but whitespace and braces.

use vstd::prelude::*;

verus! {

/// The placeholder kind a template carries: a sequential number (`{id}`)
/// or a line taken from a list file (`{s}`).
#[derive(Clone, Copy, Debug, PartialEq, Eq, Structural)]
pub enum Placeholder {
    Id,
    Substitution,
}

/// A character with the Unicode `White_Space` property.
pub open spec fn is_space_char(c: char) -> bool {
    let u = c as int;
    ||| (0x9 <= u && u <= 0xd)
    ||| u == 0x20
    ||| u == 0x85
    ||| u == 0xa0
    ||| u == 0x1680
    ||| (0x2000 <= u && u <= 0x200a)
    ||| u == 0x2028
    ||| u == 0x2029
    ||| u == 0x202f
    ||| u == 0x205f
    ||| u == 0x3000
}

/// A character allowed outside the placeholder: no whitespace, no braces.
pub open spec fn is_plain_char(c: char) -> bool {
    c != '{' && c != '}' && !is_space_char(c)
}

/// Every character of `s` is plain.
pub open spec fn all_plain(s: Seq<char>) -> bool {
    forall|i: int| 0 <= i < s.len() ==> is_plain_char(#[trigger] s[i])
}

/// The token text of a placeholder kind.
pub open spec fn token(k: Placeholder) -> Seq<char> {
    match k {
        Placeholder::Id => seq!['{', 'i', 'd', '}'],
        Placeholder::Substitution => seq!['{', 's', '}'],
    }
}

/// `s` splits at position `i` into a plain prefix, the token of `k`,
/// and a plain suffix.
pub open spec fn splits_at(s: Seq<char>, k: Placeholder, i: int) -> bool {
    &&& 0 <= i
    &&& i + token(k).len() <= s.len()
    &&& all_plain(s.subrange(0, i))
    &&& s.subrange(i, i + token(k).len()) == token(k)
    &&& all_plain(s.subrange(i + token(k).len(), s.len() as int))
}

/// `s` matches the template grammar with placeholder kind `k`.
pub open spec fn valid_as(s: Seq<char>, k: Placeholder) -> bool {
    exists|i: int| splits_at(s, k, i)
}

/// `s` matches the template grammar with some placeholder kind.
pub open spec fn valid_template(s: Seq<char>) -> bool {
    valid_as(s, Placeholder::Id) || valid_as(s, Placeholder::Substitution)
}

/// Exec mirror of `is_space_char`.
pub fn space_char(c: char) -> (b: bool)
    ensures
        b == is_space_char(c),
{
    let u = c as u32;
    (0x9 <= u && u <= 0xd) || u == 0x20 || u == 0x85 || u == 0xa0 || u == 0x1680 || (0x2000 <= u
        && u <= 0x200a) || u == 0x2028 || u == 0x2029 || u == 0x202f || u == 0x205f || u == 0x3000
}

/// Exec mirror of `is_plain_char`.
pub fn plain_char(c: char) -> (b: bool)
    ensures
        b == is_plain_char(c),
{
    c != '{' && c != '}' && !space_char(c)
}

/// Index of the first non-plain character of `s` at or after `from`,
/// or the length of `s` if all remaining characters are plain.
fn scan_plain(s: &str, from: usize) -> (r: usize)
    requires
        from <= s@.len(),
    ensures
        from <= r <= s@.len(),
        forall|t: int| from <= t < r ==> is_plain_char(#[trigger] s@[t]),
        r < s@.len() ==> !is_plain_char(s@[r as int]),
{
    let n = s.unicode_len();
    let mut i = from;
    while i < n
        invariant
            from <= i <= n,
            n == s@.len(),
            forall|t: int| from <= t < i ==> is_plain_char(#[trigger] s@[t]),
        decreases n - i,
    {
        if !plain_char(s.get_char(i)) {
            return i;
        }
        i = i + 1;
    }
    i
}

/// In any split, the token position is exactly the index of the first
/// non-plain character of the template.
pub proof fn lemma_split_is_first_nonplain(s: Seq<char>, k: Placeholder, j: int)
    requires
        splits_at(s, k, j),
    ensures
        forall|t: int| 0 <= t < j ==> is_plain_char(#[trigger] s[t]),
        j < s.len(),
        !is_plain_char(s[j]),
        s[j] == '{',
{
    assert forall|t: int| 0 <= t < j implies is_plain_char(#[trigger] s[t]) by {
        assert(s.subrange(0, j)[t] == s[t]);
        assert(is_plain_char(s.subrange(0, j)[t]));
    }
    assert(s.subrange(j, j + token(k).len())[0] == s[j]);
    assert(token(k)[0] == '{');
}

/// A template that is valid for `k` splits exactly at the first
/// non-plain position.
proof fn lemma_split_at_scan(s: Seq<char>, k: Placeholder, i: int)
    requires
        valid_as(s, k),
        0 <= i <= s.len(),
        forall|t: int| 0 <= t < i ==> is_plain_char(#[trigger] s[t]),
        i < s.len() ==> !is_plain_char(s[i]),
    ensures
        splits_at(s, k, i),
{
    let j = choose|j: int| splits_at(s, k, j);
    lemma_split_is_first_nonplain(s, k, j);
    if j < i {
        assert(is_plain_char(s[j]));
        assert(false);
    }
    if j > i {
        assert(i < s.len());
        assert(is_plain_char(s[i]));
        assert(false);
    }
}

/// The split position of a valid template is unique.
pub proof fn lemma_split_unique(s: Seq<char>, k: Placeholder, i: int, j: int)
    requires
        splits_at(s, k, i),
        splits_at(s, k, j),
    ensures
        i == j,
{
    lemma_split_is_first_nonplain(s, k, i);
    lemma_split_is_first_nonplain(s, k, j);
    if i < j {
        assert(is_plain_char(s[i]));
        assert(false);
    }
    if j < i {
        assert(is_plain_char(s[j]));
        assert(false);
    }
}

/// A template is valid for at most one placeholder kind.
pub proof fn lemma_kind_unique(s: Seq<char>)
    ensures
        !(valid_as(s, Placeholder::Id) && valid_as(s, Placeholder::Substitution)),
{
    if valid_as(s, Placeholder::Id) && valid_as(s, Placeholder::Substitution) {
        let i = choose|i: int| splits_at(s, Placeholder::Id, i);
        let j = choose|j: int| splits_at(s, Placeholder::Substitution, j);
        lemma_split_is_first_nonplain(s, Placeholder::Id, i);
        lemma_split_is_first_nonplain(s, Placeholder::Substitution, j);
        if i < j {
            assert(is_plain_char(s[i]));
            assert(false);
        }
        if j < i {
            assert(is_plain_char(s[j]));
            assert(false);
        }
        assert(s.subrange(i, i + 4)[1] == s[i + 1]);
        assert(s.subrange(j, j + 3)[1] == s[j + 1]);
        assert(s[i + 1] == 'i');
        assert(s[i + 1] == 's');
        assert(false);
    }
}

/// Check a raw template string against the grammar and report which
/// placeholder kind it uses; `None` means the string is not a valid
/// template of either kind.
pub fn validate_template(fmt: &str) -> (r: Option<Placeholder>)
    ensures
        forall|k: Placeholder| valid_as(fmt@, k) <==> r == Some(k),
        r is None <==> !valid_template(fmt@),
{
    let ghost s = fmt@;
    let n = fmt.unicode_len();
    let i = scan_plain(fmt, 0);
    if i == n {
        proof {
            assert forall|k: Placeholder, j: int| !splits_at(s, k, j) by {
                if splits_at(s, k, j) {
                    lemma_split_is_first_nonplain(s, k, j);
                }
            }
        }
        return None;
    }
    let c = fmt.get_char(i);
    if c != '{' {
        proof {
            assert forall|k: Placeholder, j: int| !splits_at(s, k, j) by {
                if splits_at(s, k, j) {
                    lemma_split_at_scan(s, k, i as int);
                    lemma_split_unique(s, k, j, i as int);
                    lemma_split_is_first_nonplain(s, k, i as int);
                }
            }
        }
        return None;
    }
    if n - i >= 4 && fmt.get_char(i + 1) == 'i' && fmt.get_char(i + 2) == 'd' && fmt.get_char(
        i + 3,
    ) == '}' {
        let j = scan_plain(fmt, i + 4);
        if j == n {
            proof {
                assert(s.subrange(i as int, i + 4) =~= token(Placeholder::Id));
                assert(splits_at(s, Placeholder::Id, i as int));
                lemma_kind_unique(s);
            }
            return Some(Placeholder::Id);
        }
        proof {
            assert forall|k: Placeholder, m: int| !splits_at(s, k, m) by {
                if splits_at(s, k, m) {
                    lemma_split_at_scan(s, k, i as int);
                    lemma_split_unique(s, k, m, i as int);
                    if k is Substitution {
                        assert(s.subrange(i as int, i + 3)[1] == s[i + 1]);
                        assert(false);
                    }
                    assert(s.subrange(i + 4, s.len() as int)[j - i - 4] == s[j as int]);
                    assert(false);
                }
            }
        }
        return None;
    }
    if n - i >= 3 && fmt.get_char(i + 1) == 's' && fmt.get_char(i + 2) == '}' {
        let j = scan_plain(fmt, i + 3);
        if j == n {
            proof {
                assert(s.subrange(i as int, i + 3) =~= token(Placeholder::Substitution));
                assert(splits_at(s, Placeholder::Substitution, i as int));
                lemma_kind_unique(s);
            }
            return Some(Placeholder::Substitution);
        }
        proof {
            assert forall|k: Placeholder, m: int| !splits_at(s, k, m) by {
                if splits_at(s, k, m) {
                    lemma_split_at_scan(s, k, i as int);
                    lemma_split_unique(s, k, m, i as int);
                    if k is Id {
                        assert(s.subrange(i as int, i + 4)[1] == s[i + 1]);
                        assert(false);
                    }
                    assert(s.subrange(i + 3, s.len() as int)[j - i - 3] == s[j as int]);
                    assert(false);
                }
            }
        }
        return None;
    }
    proof {
        assert forall|k: Placeholder, m: int| !splits_at(s, k, m) by {
            if splits_at(s, k, m) {
                lemma_split_at_scan(s, k, i as int);
                lemma_split_unique(s, k, m, i as int);
                if k is Id {
                    assert(s.subrange(i as int, i + 4)[1] == s[i + 1]);
                    assert(s.subrange(i as int, i + 4)[2] == s[i + 2]);
                    assert(s.subrange(i as int, i + 4)[3] == s[i + 3]);
                    assert(false);
                } else {
                    assert(s.subrange(i as int, i + 3)[1] == s[i + 1]);
                    assert(s.subrange(i as int, i + 3)[2] == s[i + 2]);
                    assert(false);
                }
            }
        }
    }
    None
}

/// The template text with its placeholder replaced by `value`.
pub open spec fn render_spec(s: Seq<char>, k: Placeholder, value: Seq<char>) -> Seq<char> {
    let i = choose|i: int| splits_at(s, k, i);
    s.subrange(0, i) + value + s.subrange(i + token(k).len(), s.len() as int)
}

/// Replace the placeholder of a valid template by `value`.
pub fn render(fmt: &str, k: Placeholder, value: &str) -> (r: String)
    requires
        valid_as(fmt@, k),
    ensures
        r@ == render_spec(fmt@, k, value@),
{
    let ghost s = fmt@;
    let n = fmt.unicode_len();
    let i = scan_plain(fmt, 0);
    proof {
        lemma_split_at_scan(s, k, i as int);
        let j = choose|j: int| splits_at(s, k, j);
        lemma_split_unique(s, k, j, i as int);
    }
    let tok_len: usize = match k {
        Placeholder::Id => 4,
        Placeholder::Substitution => 3,
    };
    let prefix = fmt.substring_char(0, i);
    let suffix = fmt.substring_char(i + tok_len, n);
    let mut out = String::from_str(prefix);
    out.append(value);
    out.append(suffix);
    out
}

/// Rendering is injective in the substituted value: equal results mean
/// equal values.
pub proof fn lemma_render_injective(s: Seq<char>, k: Placeholder, v1: Seq<char>, v2: Seq<char>)
    requires
        valid_as(s, k),
        render_spec(s, k, v1) == render_spec(s, k, v2),
    ensures
        v1 == v2,
{
    let i = choose|i: int| splits_at(s, k, i);
    let p = s.subrange(0, i);
    let q = s.subrange(i + token(k).len(), s.len() as int);
    assert(p + v1 + q == p + v2 + q);
    assert((p + v1 + q).len() == (p + v2 + q).len());
    assert(v1.len() == v2.len());
    assert forall|t: int| 0 <= t < v1.len() implies v1[t] == v2[t] by {
        assert((p + v1 + q)[p.len() + t] == v1[t]);
        assert((p + v2 + q)[p.len() + t] == v2[t]);
    }
    assert(v1 =~= v2);
}

} // verus!
