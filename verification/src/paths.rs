use vstd::prelude::*;
use vstd::string::{StrSliceExecFns, StringExecFns};

verus! {

/// `base` joined with `name` by the rule of `std::path::Path::join` on Unix:
/// a `name` that starts with `/` replaces `base`; otherwise a `/` is put
/// between them unless `base` is empty or already ends in `/`.
pub open spec fn joined(base: Seq<char>, name: Seq<char>) -> Seq<char> {
    if name.len() > 0 && name[0] == '/' {
        name
    } else if base.len() == 0 {
        name
    } else if base.last() == '/' {
        base + name
    } else {
        base + seq!['/'] + name
    }
}

/// Joins `name` onto `base` as [`joined`] describes.
pub fn join_path(base: &str, name: &str) -> (r: String)
    ensures
        r@ == joined(base@, name@),
{
    let name_len = name.unicode_len();
    if name_len > 0 && name.get_char(0) == '/' {
        return name.to_owned();
    }
    let base_len = base.unicode_len();
    if base_len == 0 {
        return name.to_owned();
    }
    let mut r = base.to_owned();
    if base.get_char(base_len - 1) != '/' {
        let sep = "/";
        proof {
            reveal_strlit("/");
        }
        r.append(sep);
    }
    r.append(name);
    assert(r@ =~= joined(base@, name@));
    r
}

/// Joining keeps both parts: a relative `name` is appended to `base` whole,
/// with one `/` between them exactly when `base` is non-empty and does not
/// already end in `/`; an absolute `name` is the result.
pub proof fn lemma_join_parts(base: Seq<char>, name: Seq<char>)
    ensures
        name.len() > 0 && name[0] == '/' ==> joined(base, name) == name,
        !(name.len() > 0 && name[0] == '/') ==> {
            let r = joined(base, name);
            &&& r.take(base.len() as int) == base
            &&& r.skip(r.len() - name.len()) == name
            &&& base.len() + name.len() <= r.len() <= base.len() + name.len() + 1
            &&& (r.len() == base.len() + name.len() + 1) <==> (base.len() > 0 && base[base.len()
                - 1] != '/')
            &&& r.len() == base.len() + name.len() + 1 ==> r[base.len() as int] == '/'
        },
{
    if !(name.len() > 0 && name[0] == '/') {
        let r = joined(base, name);
        assert(r.take(base.len() as int) =~= base);
        assert(r.skip(r.len() - name.len()) =~= name);
    }
}

} // verus!
