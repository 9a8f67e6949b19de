//! Names of items in a dataset and paths through its groups.
use vstd::prelude::*;
use vstd::string::StrSliceExecFns;
use vstd::utf8::encode_utf8;

use crate::error::{Error, Result, NC_EMAXNAME};

verus! {

/// Longest name, in bytes, that an item of a dataset can have.
pub const NC_MAX_NAME: usize = 256;

/// The name that the C library sees: the text before the first NUL.
pub open spec fn c_name(s: Seq<char>) -> Seq<char>
    decreases s.len(),
{
    if s.len() == 0 {
        s
    } else if s[0] == '\0' {
        Seq::empty()
    } else {
        seq![s[0]] + c_name(s.drop_first())
    }
}

/// The name is too long for the C library: more bytes than `NC_MAX_NAME`
/// in its UTF-8 encoding.
pub open spec fn too_long(s: Seq<char>) -> bool {
    (encode_utf8(s).len() as usize) > NC_MAX_NAME
}

pub proof fn lemma_c_name_prefix(s: Seq<char>, i: int)
    requires
        0 <= i <= s.len(),
        forall|k: int| 0 <= k < i ==> s[k] != '\0',
        i == s.len() || s[i] == '\0',
    ensures
        c_name(s) == s.subrange(0, i),
    decreases s.len(),
{
    if s.len() == 0 {
    } else if i == 0 {
    } else {
        lemma_c_name_prefix(s.drop_first(), i - 1);
        assert(s.subrange(0, i) =~= seq![s[0]] + s.drop_first().subrange(0, i - 1));
    }
}

/// The name that the C library would be given for `name`: an error when it
/// has more than `NC_MAX_NAME` bytes, else the text before the first NUL.
pub fn short_name_to_bytes(name: &str) -> (r: Result<String>)
    ensures
        too_long(name@) ==> (r matches Err(Error::Netcdf(c)) && c == NC_EMAXNAME),
        !too_long(name@) ==> (r matches Ok(s) && s@ == c_name(name@)),
{
    if name.len() > NC_MAX_NAME {
        return Err(Error::Netcdf(NC_EMAXNAME));
    }
    let n = name.unicode_len();
    let mut i: usize = 0;
    let mut stop = false;
    while i < n && !stop
        invariant
            n == name@.len(),
            i <= n,
            forall|k: int| 0 <= k < i ==> name@[k] != '\0',
            stop ==> i < n && name@[i as int] == '\0',
        decreases n - i + (if stop {
            0int
        } else {
            1int
        }),
    {
        if name.get_char(i) == '\0' {
            stop = true;
        } else {
            i = i + 1;
        }
    }
    proof {
        lemma_c_name_prefix(name@, i as int);
    }
    Ok(name.substring_char(0, i).to_owned())
}

/// Whether two names are the same text.
pub fn same_name(a: &str, b: &str) -> (r: bool)
    ensures
        r == (a@ == b@),
{
    let n = a.unicode_len();
    let m = b.unicode_len();
    if n != m {
        return false;
    }
    let mut i: usize = 0;
    while i < n
        invariant
            n == a@.len(),
            m == b@.len(),
            n == m,
            i <= n,
            forall|k: int| 0 <= k < i ==> a@[k] == b@[k],
        decreases n - i,
    {
        if a.get_char(i) != b.get_char(i) {
            return false;
        }
        i = i + 1;
    }
    assert(a@ =~= b@);
    true
}

/// The index of the first `/` at or after `from`, or the length when there
/// is none.
pub open spec fn next_slash(s: Seq<char>, from: int) -> int
    decreases s.len() - from,
{
    if from >= s.len() {
        s.len() as int
    } else if s[from] == '/' {
        from
    } else {
        next_slash(s, from + 1)
    }
}

/// The components of a path, split at every `/`, from `from` on.
pub open spec fn components_from(s: Seq<char>, from: int) -> Seq<Seq<char>>
    decreases s.len() - from,
{
    if from > s.len() || from < 0 {
        seq![s.subrange(from, s.len() as int)]
    } else {
        let e = next_slash(s, from);
        if e >= s.len() {
            seq![s.subrange(from, s.len() as int)]
        } else {
            proof {
                lemma_next_slash_bounds(s, from);
            }
            seq![s.subrange(from, e)] + components_from(s, e + 1)
        }
    }
}

/// The components of a path, split at every `/` (a path without `/` is one
/// component).
pub open spec fn components(s: Seq<char>) -> Seq<Seq<char>> {
    components_from(s, 0)
}

proof fn lemma_next_slash(s: Seq<char>, from: int, i: int)
    requires
        0 <= from <= i <= s.len(),
        forall|k: int| from <= k < i ==> s[k] != '/',
        i == s.len() || s[i] == '/',
    ensures
        next_slash(s, from) == i,
    decreases i - from,
{
    if from < i {
        lemma_next_slash(s, from + 1, i);
    }
}

pub proof fn lemma_next_slash_bounds(s: Seq<char>, from: int)
    requires
        0 <= from <= s.len(),
    ensures
        from <= next_slash(s, from) <= s.len(),
    decreases s.len() - from,
{
    if from < s.len() && s[from] != '/' {
        lemma_next_slash_bounds(s, from + 1);
    }
}

/// A path has at least one component.
pub proof fn lemma_components_len(s: Seq<char>, from: int)
    requires
        0 <= from <= s.len(),
    ensures
        components_from(s, from).len() >= 1,
    decreases s.len() - from,
{
    lemma_next_slash_bounds(s, from);
    let e = next_slash(s, from);
    if e < s.len() {
        lemma_components_len(s, e + 1);
    }
}

/// Splits a path at every `/`.
pub fn split_path(path: &str) -> (r: Vec<String>)
    ensures
        r@.len() == components(path@).len(),
        forall|i: int| 0 <= i < r@.len() ==> #[trigger] r@[i]@ == components(path@)[i],
        r@.len() >= 1,
{
    let n = path.unicode_len();
    let mut out: Vec<String> = Vec::new();
    let mut from: usize = 0;
    let ghost mut done: Seq<Seq<char>> = Seq::empty();
    loop
        invariant
            n == path@.len(),
            from <= n,
            out@.len() == done.len(),
            forall|i: int| 0 <= i < out@.len() ==> #[trigger] out@[i]@ == done[i],
            done + components_from(path@, from as int) == components(path@),
        decreases n - from,
    {
        let mut e: usize = from;
        let mut stop = false;
        while e < n && !stop
            invariant
                n == path@.len(),
                from <= e <= n,
                forall|k: int| from <= k < e ==> path@[k] != '/',
                stop ==> e < n && path@[e as int] == '/',
            decreases n - e + (if stop {
                0int
            } else {
                1int
            }),
        {
            if path.get_char(e) == '/' {
                stop = true;
            } else {
                e = e + 1;
            }
        }
        proof {
            lemma_next_slash(path@, from as int, e as int);
        }
        let part = path.substring_char(from, e).to_owned();
        out.push(part);
        if e >= n {
            proof {
                done = done + seq![path@.subrange(from as int, n as int)];
                assert(components_from(path@, from as int) == seq![path@.subrange(from as int, n as int)]);
                assert(done =~= components(path@)) by {
                    assert(done == (done.drop_last()) + seq![path@.subrange(from as int, n as int)]);
                }
            }
            assert(out@.len() == components(path@).len());
            proof {
                lemma_components_len(path@, 0);
            }
            return out;
        }
        proof {
            let old_done = done;
            done = done + seq![path@.subrange(from as int, e as int)];
            assert(components_from(path@, from as int) == seq![path@.subrange(from as int, e as int)]
                + components_from(path@, e + 1));
            assert(done + components_from(path@, e + 1) =~= old_done + components_from(path@, from as int));
        }
        from = e + 1;
    }
}

} // verus!
