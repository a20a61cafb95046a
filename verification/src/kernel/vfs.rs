//! The virtual file system's paths and its root file system: a tree of
//! folders in memory (on which other file systems are mounted).
//!
//! The folders of the root file system live in one arena, a [`RootFS`], and
//! refer to each other by their index in it.
use vstd::prelude::*;
use vstd::string::*;

verus! {

/// The index of the last `/` in `s`.
pub open spec fn last_slash(s: Seq<char>) -> Option<int>
    decreases s.len(),
{
    if s.len() == 0 {
        None
    } else if s.last() == '/' {
        Some(s.len() - 1)
    } else {
        last_slash(s.drop_last())
    }
}

/// `s` after its last `/` (all of it if it holds none).
pub open spec fn after_last_slash(s: Seq<char>) -> Seq<char> {
    match last_slash(s) {
        Some(k) => s.subrange(k + 1, s.len() as int),
        None => s,
    }
}

/// The last non-empty part of `s` split at `/`.
pub open spec fn last_component(s: Seq<char>) -> Option<Seq<char>>
    decreases s.len(),
{
    if s.len() == 0 {
        None
    } else if s.last() == '/' {
        last_component(s.drop_last())
    } else {
        Some(after_last_slash(s))
    }
}

/// `s` without its last `/` and what follows it; a path that would be left
/// empty by it becomes `/`.
pub open spec fn del_last_component(s: Seq<char>) -> Seq<char> {
    match last_slash(s) {
        None => Seq::empty(),
        Some(k) => if k == 0 {
            seq!['/']
        } else {
            s.subrange(0, k)
        },
    }
}

/// `s` with `sub` appended after a `/` (only one `/` if `s` ends in one).
pub open spec fn append_component(s: Seq<char>, sub: Seq<char>) -> Seq<char> {
    if s.len() > 0 && s.last() == '/' {
        s + sub
    } else {
        s.push('/') + sub
    }
}

pub(crate) proof fn lemma_last_slash_bounds(s: Seq<char>)
    ensures
        last_slash(s) matches Some(k) ==> 0 <= k < s.len() && s[k] == '/' && forall|j: int|
            k < j < s.len() ==> s[j] != '/',
        last_slash(s) is None ==> forall|j: int| 0 <= j < s.len() ==> s[j] != '/',
    decreases s.len(),
{
    if s.len() > 0 && s.last() != '/' {
        lemma_last_slash_bounds(s.drop_last());
        assert forall|j: int| 0 <= j < s.len() - 1 implies s[j] == s.drop_last()[j] by {}
    }
}

/// The index of the last `/` in `s[..end]`.
pub(crate) fn find_last_slash(s: &str, end: usize) -> (r: Option<usize>)
    requires
        end <= s@.len(),
    ensures
        match r {
            Some(k) => k < end && last_slash(s@.subrange(0, end as int)) == Some(k as int),
            None => last_slash(s@.subrange(0, end as int)) is None,
        },
{
    let mut i: usize = end;
    while i > 0
        invariant
            i <= end <= s@.len(),
            last_slash(s@.subrange(0, end as int)) == last_slash(s@.subrange(0, i as int)),
        decreases i,
    {
        assert(s@.subrange(0, i as int).drop_last() =~= s@.subrange(0, i - 1));
        if s.get_char(i - 1) == '/' {
            return Some(i - 1);
        }
        i = i - 1;
    }
    None
}

/// Whether two strings hold the same characters.
pub(crate) fn str_eq(a: &str, b: &str) -> (r: bool)
    ensures
        r == (a@ == b@),
{
    let n = a.unicode_len();
    if n != b.unicode_len() {
        return false;
    }
    let mut i: usize = 0;
    while i < n
        invariant
            i <= n,
            n == a@.len(),
            n == b@.len(),
            forall|j: int| 0 <= j < i ==> a@[j] == b@[j],
        decreases n - i,
    {
        if a.get_char(i) != b.get_char(i) {
            return false;
        }
        i = i + 1;
    }
    assert(a@ =~= b@);
    true
}

/// The last non-empty part of `s` split at `/`.
pub(crate) fn last_component_of(s: &str) -> (r: Option<&str>)
    ensures
        match r {
            Some(c) => last_component(s@) == Some(c@),
            None => last_component(s@) is None,
        },
{
    let mut end = s.unicode_len();
    assert(s@.subrange(0, end as int) =~= s@);
    while end > 0 && s.get_char(end - 1) == '/'
        invariant
            end <= s@.len(),
            last_component(s@) == last_component(s@.subrange(0, end as int)),
        decreases end,
    {
        assert(s@.subrange(0, end as int).drop_last() =~= s@.subrange(0, end - 1));
        end = end - 1;
    }
    if end == 0 {
        assert(s@.subrange(0, 0) =~= Seq::<char>::empty());
        return None;
    }
    let ghost t = s@.subrange(0, end as int);
    assert(t.last() != '/');
    assert(last_component(t) == Some(after_last_slash(t)));
    let start = match find_last_slash(s, end) {
        Some(k) => k + 1,
        None => 0,
    };
    proof {
        lemma_last_slash_bounds(t);
    }
    assert(after_last_slash(t) =~= s@.subrange(start as int, end as int));
    Some(s.substring_char(start, end))
}

/// The parts of `s` split at `/`, from the last to the first, empty ones
/// included.
pub open spec fn rsplit_parts(s: Seq<char>) -> Seq<Seq<char>>
    decreases s.len(),
{
    match last_slash(s) {
        Some(k) => if 0 <= k < s.len() {
            seq![s.subrange(k + 1, s.len() as int)] + rsplit_parts(s.subrange(0, k))
        } else {
            seq![s]
        },
        None => seq![s],
    }
}

/// The parts kept by [`Path::canonicalize`] out of `parts` (last part
/// first), with `skip` parts still to drop for `..`s met after them: `.` and
/// empty parts go, each `..` drops the next part that would be kept.
pub open spec fn kept_parts(parts: Seq<Seq<char>>, skip: nat) -> Seq<Seq<char>>
    decreases parts.len(),
{
    if parts.len() == 0 {
        Seq::empty()
    } else {
        let p = parts[0];
        let rest = parts.drop_first();
        if p == seq!['.'] || p.len() == 0 {
            kept_parts(rest, skip)
        } else if p == seq!['.', '.'] {
            kept_parts(rest, skip + 1)
        } else if skip > 0 {
            kept_parts(rest, (skip - 1) as nat)
        } else {
            seq![p] + kept_parts(rest, 0)
        }
    }
}

/// `/` and each of `kept` (last part first), in path order.
pub open spec fn joined(kept: Seq<Seq<char>>) -> Seq<char>
    decreases kept.len(),
{
    if kept.len() == 0 {
        Seq::empty()
    } else {
        joined(kept.drop_first()).push('/') + kept[0]
    }
}

/// The path `s` without `.`, `..` and empty parts: `/` where nothing is left.
pub open spec fn canonical(s: Seq<char>) -> Seq<char> {
    let kept = kept_parts(rsplit_parts(s), 0);
    if kept.len() == 0 {
        seq!['/']
    } else {
        joined(kept)
    }
}

/// A part that canonicalizing keeps: not empty, neither `.` nor `..`, and
/// without `/`.
pub open spec fn clean_part(p: Seq<char>) -> bool {
    &&& p.len() > 0
    &&& p != seq!['.']
    &&& p != seq!['.', '.']
    &&& no_slash(p)
}

/// `p` holds no `/`.
pub open spec fn no_slash(p: Seq<char>) -> bool {
    forall|i: int| 0 <= i < p.len() ==> p[i] != '/'
}

proof fn lemma_rsplit_parts_clean(s: Seq<char>)
    ensures
        forall|i: int| 0 <= i < rsplit_parts(s).len() ==> no_slash(#[trigger] rsplit_parts(s)[i]),
    decreases s.len(),
{
    lemma_last_slash_bounds(s);
    match last_slash(s) {
        Some(k) => {
            lemma_rsplit_parts_clean(s.subrange(0, k));
            let first = s.subrange(k + 1, s.len() as int);
            assert(no_slash(first));
            assert forall|i: int| 0 <= i < rsplit_parts(s).len() implies no_slash(#[trigger] rsplit_parts(s)[i]) by {
                if i > 0 {
                    assert(rsplit_parts(s)[i] == rsplit_parts(s.subrange(0, k))[i - 1]);
                }
            }
        },
        None => {
            assert(rsplit_parts(s) =~= seq![s]);
            assert(no_slash(s));
        },
    }
}

proof fn lemma_kept_parts_clean(parts: Seq<Seq<char>>, skip: nat)
    requires
        forall|i: int| 0 <= i < parts.len() ==> no_slash(#[trigger] parts[i]),
    ensures
        forall|i: int| 0 <= i < kept_parts(parts, skip).len() ==> clean_part(#[trigger] kept_parts(parts, skip)[i]),
    decreases parts.len(),
{
    if parts.len() > 0 {
        let rest = parts.drop_first();
        assert forall|i: int| 0 <= i < rest.len() implies no_slash(#[trigger] rest[i]) by {
            assert(rest[i] == parts[i + 1]);
        }
        lemma_kept_parts_clean(rest, 0);
        lemma_kept_parts_clean(rest, skip);
        lemma_kept_parts_clean(rest, skip + 1);
        if skip > 0 {
            lemma_kept_parts_clean(rest, (skip - 1) as nat);
        }
        let p = parts[0];
        let k = kept_parts(parts, skip);
        if p == seq!['.'] || p.len() == 0 {
            assert(k == kept_parts(rest, skip));
        } else if p == seq!['.', '.'] {
            assert(k == kept_parts(rest, skip + 1));
        } else if skip > 0 {
            assert(k == kept_parts(rest, (skip - 1) as nat));
        } else {
            assert(no_slash(parts[0]));
            assert(k == seq![p] + kept_parts(rest, 0));
            assert forall|i: int| 0 <= i < k.len() implies clean_part(#[trigger] k[i]) by {
                if i > 0 {
                    assert(k[i] == kept_parts(rest, 0)[i - 1]);
                }
            }
        }
    }
}

proof fn lemma_rsplit_joined(k: Seq<Seq<char>>)
    requires
        forall|i: int| 0 <= i < k.len() ==> clean_part(#[trigger] k[i]),
    ensures
        rsplit_parts(joined(k)) == k + seq![Seq::<char>::empty()],
    decreases k.len(),
{
    if k.len() == 0 {
        assert(last_slash(Seq::<char>::empty()) is None);
        assert(rsplit_parts(Seq::<char>::empty()) =~= seq![Seq::<char>::empty()]);
        assert(k + seq![Seq::<char>::empty()] =~= seq![Seq::<char>::empty()]);
    } else {
        let rest = k.drop_first();
        assert forall|i: int| 0 <= i < rest.len() implies clean_part(#[trigger] rest[i]) by {
            assert(rest[i] == k[i + 1]);
        }
        lemma_rsplit_joined(rest);
        let head = joined(rest).push('/');
        let s = head + k[0];
        assert(joined(k) == s);
        assert(clean_part(k[0]));
        assert(last_slash(s) == Some(head.len() - 1)) by {
            lemma_last_slash_bounds(s);
            lemma_last_slash_from(s, head.len() - 1);
        }
        assert(s.subrange(head.len() as int, s.len() as int) =~= k[0]);
        assert(s.subrange(0, head.len() - 1) =~= joined(rest));
        assert(rsplit_parts(s) =~= seq![k[0]] + rsplit_parts(joined(rest)));
        assert(k + seq![Seq::<char>::empty()] =~= seq![k[0]] + (rest + seq![Seq::<char>::empty()]));
    }
}

/// The last `/` of `s` is at `k` when `s[k]` is one and none follows.
proof fn lemma_last_slash_from(s: Seq<char>, k: int)
    requires
        0 <= k < s.len(),
        s[k] == '/',
        forall|j: int| k < j < s.len() ==> s[j] != '/',
    ensures
        last_slash(s) == Some(k),
    decreases s.len(),
{
    if s.last() != '/' {
        lemma_last_slash_from(s.drop_last(), k);
    }
}

proof fn lemma_kept_clean(k: Seq<Seq<char>>)
    requires
        forall|i: int| 0 <= i < k.len() ==> clean_part(#[trigger] k[i]),
    ensures
        kept_parts(k + seq![Seq::<char>::empty()], 0) == k,
    decreases k.len(),
{
    if k.len() == 0 {
        let e = seq![Seq::<char>::empty()];
        assert(k + e =~= e);
        assert(e.drop_first() =~= Seq::<Seq<char>>::empty());
        assert(kept_parts(Seq::<Seq<char>>::empty(), 0) =~= Seq::<Seq<char>>::empty());
        assert(e[0].len() == 0);
        assert(kept_parts(e, 0) == kept_parts(e.drop_first(), 0));
    } else {
        let rest = k.drop_first();
        assert forall|i: int| 0 <= i < rest.len() implies clean_part(#[trigger] rest[i]) by {
            assert(rest[i] == k[i + 1]);
        }
        lemma_kept_clean(rest);
        let all = k + seq![Seq::<char>::empty()];
        assert(all[0] == k[0]);
        assert(all.drop_first() =~= rest + seq![Seq::<char>::empty()]);
        assert(clean_part(k[0]));
        assert(kept_parts(all, 0) =~= seq![k[0]] + rest);
        assert(seq![k[0]] + rest =~= k);
    }
}

/// Canonicalizing a canonical path changes nothing.
pub proof fn lemma_canonical_idempotent(s: Seq<char>)
    ensures
        canonical(canonical(s)) == canonical(s),
{
    let k = kept_parts(rsplit_parts(s), 0);
    lemma_rsplit_parts_clean(s);
    lemma_kept_parts_clean(rsplit_parts(s), 0);
    if k.len() == 0 {
        let root = seq!['/'];
        assert(last_slash(root) == Some(0int)) by {
            lemma_last_slash_from(root, 0);
        }
        assert(root.subrange(1, 1) =~= Seq::<char>::empty());
        assert(root.subrange(0, 0) =~= Seq::<char>::empty());
        assert(last_slash(Seq::<char>::empty()) is None);
        let parts = rsplit_parts(root);
        let e = Seq::<char>::empty();
        assert(rsplit_parts(e) =~= seq![e]);
        assert(parts == seq![root.subrange(1, 1)] + rsplit_parts(root.subrange(0, 0)));
        assert(parts =~= seq![e, e]);
        let rest = parts.drop_first();
        assert(rest =~= seq![e]);
        assert(rest.drop_first() =~= Seq::<Seq<char>>::empty());
        assert(kept_parts(Seq::<Seq<char>>::empty(), 0) =~= Seq::<Seq<char>>::empty());
        assert(kept_parts(rest, 0) == kept_parts(rest.drop_first(), 0));
        assert(kept_parts(parts, 0) == kept_parts(rest, 0));
    } else {
        lemma_rsplit_joined(k);
        lemma_kept_clean(k);
    }
}

/// A path of the virtual file system: absolute, its parts separated by `/`.
#[derive(Debug)]
pub struct Path {
    inner: String,
}

impl Clone for Path {
    fn clone(&self) -> (r: Self)
        ensures
            r.view() == self.view(),
    {
        Path { inner: self.inner.clone() }
    }
}

impl Path {
    /// The characters of the path.
    pub closed spec fn view(&self) -> Seq<char> {
        self.inner@
    }

    /// `/`
    pub fn root() -> (r: Self)
        ensures
            r.view() == seq!['/'],
    {
        proof {
            reveal_strlit("/");
        }
        Path { inner: String::from_str("/") }
    }

    /// The last non-empty part of the path.
    pub fn last(&self) -> (r: Option<&str>)
        ensures
            match r {
                Some(c) => last_component(self.view()) == Some(c@),
                None => last_component(self.view()) is None,
            },
    {
        last_component_of(self.inner.as_str())
    }

    /// Removes the last `/` and what follows it, but not the `/` at the start.
    pub fn del_last(&mut self)
        ensures
            final(self).view() == del_last_component(old(self).view()),
    {
        let s = self.inner.as_str();
        let n = s.unicode_len();
        assert(s@.subrange(0, n as int) =~= s@);
        proof {
            lemma_last_slash_bounds(s@);
        }
        match find_last_slash(s, n) {
            None => {
                proof {
                    reveal_strlit("");
                }
                self.inner = String::from_str("");
            },
            Some(k) => {
                if k == 0 {
                    self.inner = Path::root().inner;
                } else {
                    let head = String::from_str(s.substring_char(0, k));
                    self.inner = head;
                }
            },
        }
    }

    /// Appends a part to the path, after a `/`.
    pub fn append_str(&mut self, subnode: &str)
        ensures
            final(self).view() == append_component(old(self).view(), subnode@),
    {
        let n = self.inner.as_str().unicode_len();
        if n == 0 || self.inner.as_str().get_char(n - 1) != '/' {
            proof {
                reveal_strlit("/");
            }
            self.inner.append("/");
        }
        self.inner.append(subnode);
    }

    /// The path without `.` and empty parts, each `..` taking away the part
    /// before it; `/` where nothing is left.
    pub fn canonicalize(self) -> (r: Self)
        ensures
            r.view() == canonical(self.view()),
    {
        let s = self.inner.as_str();
        let ghost full = s@;
        proof {
            reveal_strlit(".");
            reveal_strlit("..");
            reveal_strlit("/");
        }
        let mut kept: Vec<String> = Vec::new();
        let ghost mut gk: Seq<Seq<char>> = Seq::empty();
        let mut skip: usize = 0;
        let mut end: usize = s.unicode_len();
        let mut done = false;
        assert(full.subrange(0, end as int) =~= full);
        while !done
            invariant
                end <= full.len(),
                full.len() <= usize::MAX,
                s@ == full,
                !done ==> skip <= full.len() - end,
                kept@.len() == gk.len(),
                forall|i: int| 0 <= i < gk.len() ==> #[trigger] kept@[i]@ == gk[i],
                done ==> kept_parts(rsplit_parts(full), 0) == gk,
                !done ==> kept_parts(rsplit_parts(full), 0) == gk + kept_parts(
                    rsplit_parts(full.subrange(0, end as int)),
                    skip as nat,
                ),
            decreases end + (if done { 0int } else { 1int }),
        {
            let ghost before = full.subrange(0, end as int);
            proof {
                lemma_last_slash_bounds(before);
            }
            let (start, next) = match find_last_slash(s, end) {
                Some(k) => (k + 1, Some(k)),
                None => (0, None),
            };
            let part = s.substring_char(start, end);
            let ghost rest_parts = match next {
                Some(k) => rsplit_parts(full.subrange(0, k as int)),
                None => Seq::<Seq<char>>::empty(),
            };
            proof {
                match next {
                    Some(k) => {
                        assert(before.subrange(0, k as int) =~= full.subrange(0, k as int));
                        assert(before.subrange(k + 1, before.len() as int) =~= part@);
                    },
                    None => {
                        assert(part@ =~= before);
                    },
                }
                assert(rsplit_parts(before) =~= seq![part@] + rest_parts);
                assert((seq![part@] + rest_parts).drop_first() =~= rest_parts);
            }
            let n = part.unicode_len();
            let ghost skip0 = skip as nat;
            let ghost gk0 = gk;
            proof {
                reveal_strlit(".");
                reveal_strlit("..");
            }
            let is_dot = str_eq(part, ".");
            let is_dotdot = str_eq(part, "..");
            assert("."@ =~= seq!['.']);
            assert(".."@ =~= seq!['.', '.']);
            assert(is_dot == (part@ == seq!['.']));
            assert(is_dotdot == (part@ == seq!['.', '.']));
            if n == 0 || is_dot {
                assert(kept_parts(rsplit_parts(before), skip0) == kept_parts(rest_parts, skip0));
            } else if is_dotdot {
                assert(kept_parts(rsplit_parts(before), skip0) == kept_parts(rest_parts, skip0 + 1));
                skip = skip + 1;
            } else if skip > 0 {
                assert(kept_parts(rsplit_parts(before), skip0) == kept_parts(rest_parts, (skip0 - 1) as nat));
                skip = skip - 1;
            } else {
                assert(kept_parts(rsplit_parts(before), skip0) == seq![part@] + kept_parts(rest_parts, 0));
                kept.push(String::from_str(part));
                proof {
                    gk = gk.push(part@);
                    assert(gk0 + (seq![part@] + kept_parts(rest_parts, 0)) =~= gk + kept_parts(rest_parts, 0));
                }
            }
            match next {
                Some(k) => {
                    end = k;
                },
                None => {
                    done = true;
                    proof {
                        assert(gk + Seq::<Seq<char>>::empty() =~= gk);
                    }
                },
            }
        }
        if kept.len() == 0 {
            return Path::root();
        }
        let mut out = String::new();
        let mut i: usize = kept.len();
        assert(gk.subrange(i as int, gk.len() as int) =~= Seq::<Seq<char>>::empty());
        while i > 0
            invariant
                i <= gk.len(),
                kept@.len() == gk.len(),
                forall|j: int| 0 <= j < gk.len() ==> #[trigger] kept@[j]@ == gk[j],
                out@ == joined(gk.subrange(i as int, gk.len() as int)),
            decreases i,
        {
            i = i - 1;
            proof {
                reveal_strlit("/");
            }
            out.append("/");
            out.append(kept[i].as_str());
            proof {
                let t = gk.subrange(i as int, gk.len() as int);
                assert(t.drop_first() =~= gk.subrange(i + 1, gk.len() as int));
            }
        }
        assert(gk.subrange(0, gk.len() as int) =~= gk);
        Path { inner: out }
    }

    /// The path as a string.
    pub fn as_str(&self) -> (r: &str)
        ensures
            r@ == self.view(),
    {
        self.inner.as_str()
    }

    pub fn into_inner(self) -> (r: String)
        ensures
            r@ == self.view(),
    {
        self.inner
    }

    /// Whether two paths are the same characters.
    pub fn same_as(&self, other: &Path) -> (r: bool)
        ensures
            r == (self.view() == other.view()),
    {
        str_eq(self.inner.as_str(), other.inner.as_str())
    }

    /// The path `value`, which must start with `/`; a `/` at its end is
    /// dropped, unless it is the whole path.
    pub fn try_from_str(value: &str) -> (r: Result<Self, ()>)
        ensures
            match r {
                Ok(p) => value@.len() > 0 && value@[0] == '/' && p.view() == (if value@.len()
                    > 1 && value@.last() == '/' {
                    value@.drop_last()
                } else {
                    value@
                }),
                Err(_) => !(value@.len() > 0 && value@[0] == '/'),
            },
    {
        let n = value.unicode_len();
        if n == 0 || value.get_char(0) != '/' {
            return Err(());
        }
        if n > 1 && value.get_char(n - 1) == '/' {
            Ok(Path { inner: String::from_str(value.substring_char(0, n - 1)) })
        } else {
            assert(value@.subrange(0, n as int) =~= value@);
            Ok(Path { inner: String::from_str(value.substring_char(0, n)) })
        }
    }

    /// The path `value`, which must start with `/`.
    pub fn try_from_string(value: String) -> (r: Result<Self, ()>)
        ensures
            match r {
                Ok(p) => value@.len() > 0 && value@[0] == '/' && p.view() == value@,
                Err(_) => !(value@.len() > 0 && value@[0] == '/'),
            },
    {
        let n = value.as_str().unicode_len();
        if n == 0 || value.as_str().get_char(0) != '/' {
            return Err(());
        }
        Ok(Path { inner: value })
    }
}

/// A folder of the root file system.
#[derive(Debug)]
pub struct RootFSNode {
    path: Path,
    parent: Option<usize>,
    children: Vec<usize>,
}

impl RootFSNode {
    pub closed spec fn path_view(&self) -> Seq<char> {
        self.path.view()
    }

    pub closed spec fn parent_index(&self) -> Option<usize> {
        self.parent
    }

    pub closed spec fn child_indices(&self) -> Seq<usize> {
        self.children@
    }

    /// The root folder: path `/`, no parent, no children.
    pub fn new_root() -> (r: Self)
        ensures
            r.path_view() == seq!['/'],
            r.parent_index() is None,
            r.child_indices() == Seq::<usize>::empty(),
    {
        RootFSNode { path: Path::root(), parent: None, children: Vec::new() }
    }

    pub fn get_parent(&self) -> (r: Option<usize>)
        ensures
            r == self.parent_index(),
    {
        self.parent
    }

    pub fn get_path(&self) -> (r: &Path)
        ensures
            r.view() == self.path_view(),
    {
        &self.path
    }
}

/// The folders of the root file system; folder 0 is the root.
#[derive(Debug)]
pub struct RootFS {
    nodes: Vec<RootFSNode>,
}

impl RootFS {
    pub closed spec fn nodes(&self) -> Seq<RootFSNode> {
        self.nodes@
    }

    /// Every parent and child index names a folder of the arena.
    pub open spec fn wf(&self) -> bool {
        &&& self.nodes().len() > 0
        &&& forall|i: int, j: int|
            0 <= i < self.nodes().len() && 0 <= j < self.nodes()[i].child_indices().len()
                ==> #[trigger] self.nodes()[i].child_indices()[j] < self.nodes().len()
        &&& forall|i: int|
            0 <= i < self.nodes().len() ==> (#[trigger] self.nodes()[i].parent_index() matches Some(
                p,
            ) ==> p < self.nodes().len())
    }

    /// A root file system holding the root folder only.
    pub fn new() -> (r: Self)
        ensures
            r.wf(),
            r.nodes().len() == 1,
            r.nodes()[0].path_view() == seq!['/'],
            r.nodes()[0].child_indices().len() == 0,
            r.nodes()[0].parent_index() is None,
    {
        let mut nodes: Vec<RootFSNode> = Vec::new();
        nodes.push(RootFSNode::new_root());
        RootFS { nodes }
    }

    pub fn node(&self, i: usize) -> (r: &RootFSNode)
        requires
            i < self.nodes().len(),
        ensures
            *r == self.nodes()[i as int],
    {
        &self.nodes[i]
    }

    /// Adds a folder named `name` to the folder `slf`; returns its index.
    pub fn add_folder(&mut self, slf: usize, name: &str) -> (r: usize)
        requires
            old(self).wf(),
            slf < old(self).nodes().len(),
        ensures
            final(self).wf(),
            r == old(self).nodes().len(),
            final(self).nodes().len() == old(self).nodes().len() + 1,
            final(self).nodes()[r as int].path_view() == append_component(
                old(self).nodes()[slf as int].path_view(),
                name@,
            ),
            final(self).nodes()[r as int].parent_index() == Some(slf),
            final(self).nodes()[r as int].child_indices().len() == 0,
            final(self).nodes()[slf as int].child_indices() == old(self).nodes()[slf as int].child_indices().push(r),
            final(self).nodes()[slf as int].path_view() == old(self).nodes()[slf as int].path_view(),
            final(self).nodes()[slf as int].parent_index() == old(self).nodes()[slf as int].parent_index(),
            forall|i: int| 0 <= i < old(self).nodes().len() && i != slf ==> #[trigger] final(self).nodes()[i] == old(self).nodes()[i],
    {
        let mut new_p = self.nodes[slf].path.clone();
        new_p.append_str(name);
        let idx = self.nodes.len();
        self.nodes.push(RootFSNode { path: new_p, parent: Some(slf), children: Vec::new() });
        self.nodes[slf].children.push(idx);
        proof {
            let o = old(self).nodes@;
            let n = self.nodes@;
            assert(n.len() == o.len() + 1);
            assert forall|i: int, j: int|
                0 <= i < n.len() && 0 <= j < n[i].child_indices().len() implies #[trigger] n[i].child_indices()[j] < n.len() by {
                if i == slf {
                    if j < o[i].child_indices().len() {
                        assert(n[i].child_indices()[j] == o[i].child_indices()[j]);
                    }
                } else if i < o.len() {
                    assert(n[i] == o[i]);
                }
            }
            assert forall|i: int| 0 <= i < n.len() implies (#[trigger] n[i].parent_index() matches Some(p) ==> p < n.len()) by {
                if i < o.len() && i != slf {
                    assert(n[i] == o[i]);
                }
            }
        }
        idx
    }
}

/// Whether folder `c` of the arena is named `name` (the last part of its path).
pub open spec fn named(nodes: Seq<RootFSNode>, c: usize, name: Seq<char>) -> bool {
    c < nodes.len() && last_component(nodes[c as int].path_view()) == Some(name)
}

/// Whether folder `c` may be deleted under the name `name`: it has no
/// children and is so named.
pub open spec fn deletable(nodes: Seq<RootFSNode>, c: usize, name: Seq<char>) -> bool {
    c < nodes.len() && nodes[c as int].child_indices().len() == 0 && named(nodes, c, name)
}

impl RootFS {
    /// The first child of `slf` that is named `name`.
    pub fn find_child(&self, slf: usize, name: &str) -> (r: Option<usize>)
        requires
            self.wf(),
            slf < self.nodes().len(),
        ensures
            match r {
                Some(c) => exists|i: int|
                    0 <= i < self.nodes()[slf as int].child_indices().len()
                        && self.nodes()[slf as int].child_indices()[i] == c && named(self.nodes(), c, name@)
                        && forall|k: int| 0 <= k < i ==> !named(self.nodes(), #[trigger] self.nodes()[slf as int].child_indices()[k], name@),
                None => forall|k: int|
                    0 <= k < self.nodes()[slf as int].child_indices().len() ==> !named(
                        self.nodes(),
                        #[trigger] self.nodes()[slf as int].child_indices()[k],
                        name@,
                    ),
            },
    {
        let children = &self.nodes[slf].children;
        let mut i: usize = 0;
        while i < children.len()
            invariant
                self.wf(),
                slf < self.nodes().len(),
                *children == self.nodes@[slf as int].children,
                i <= children@.len(),
                forall|k: int| 0 <= k < i ==> !named(self.nodes(), #[trigger] children@[k], name@),
            decreases children@.len() - i,
        {
            let c = children[i];
            assert(self.nodes()[slf as int].child_indices()[i as int] == c);
            if let Some(last) = self.nodes[c].path.last() {
                if str_eq(last, name) {
                    return Some(c);
                }
            }
            i = i + 1;
        }
        None
    }

    /// Removes from the children of `slf` the first one that has no children
    /// and is named `name`; whether there was one.
    pub fn remove_child(&mut self, slf: usize, name: &str) -> (r: bool)
        requires
            old(self).wf(),
            slf < old(self).nodes().len(),
        ensures
            final(self).wf(),
            final(self).nodes().len() == old(self).nodes().len(),
            forall|i: int| 0 <= i < old(self).nodes().len() && i != slf ==> #[trigger] final(self).nodes()[i] == old(self).nodes()[i],
            final(self).nodes()[slf as int].path_view() == old(self).nodes()[slf as int].path_view(),
            final(self).nodes()[slf as int].parent_index() == old(self).nodes()[slf as int].parent_index(),
            ({
                let cs = old(self).nodes()[slf as int].child_indices();
                if r {
                    exists|i: int|
                        0 <= i < cs.len() && deletable(old(self).nodes(), cs[i], name@) && (forall|k: int|
                            0 <= k < i ==> !deletable(old(self).nodes(), #[trigger] cs[k], name@))
                            && final(self).nodes()[slf as int].child_indices() == cs.remove(i)
                } else {
                    (forall|k: int| 0 <= k < cs.len() ==> !deletable(old(self).nodes(), #[trigger] cs[k], name@))
                        && final(self).nodes()[slf as int].child_indices() == cs
                }
            }),
    {
        let mut found: Option<usize> = None;
        let mut i: usize = 0;
        let n = self.nodes[slf].children.len();
        while i < n
            invariant_except_break
                found is None,
            invariant
                self.wf(),
                slf < self.nodes().len(),
                n == self.nodes@[slf as int].children@.len(),
                i <= n,
                forall|k: int| 0 <= k < i ==> !deletable(self.nodes(), #[trigger] self.nodes@[slf as int].children@[k], name@),
            ensures
                found matches Some(j) ==> j < n && deletable(self.nodes(), self.nodes@[slf as int].children@[j as int], name@)
                    && forall|k: int| 0 <= k < j ==> !deletable(self.nodes(), #[trigger] self.nodes@[slf as int].children@[k], name@),
                found is None ==> forall|k: int| 0 <= k < n ==> !deletable(self.nodes(), #[trigger] self.nodes@[slf as int].children@[k], name@),
            decreases n - i,
        {
            let c = self.nodes[slf].children[i];
            assert(self.nodes()[slf as int].child_indices()[i as int] == c);
            if self.nodes[c].children.len() == 0 {
                if let Some(last) = self.nodes[c].path.last() {
                    if str_eq(last, name) {
                        found = Some(i);
                        break;
                    }
                }
            }
            i = i + 1;
        }
        match found {
            Some(i) => {
                let ghost o = self.nodes@;
                assert(deletable(o, o[slf as int].children@[i as int], name@));
                let _c = self.nodes[slf].children.remove(i);
                proof {
                    let nn = self.nodes@;
                    assert forall|a: int, j: int|
                        0 <= a < nn.len() && 0 <= j < nn[a].child_indices().len() implies #[trigger] nn[a].child_indices()[j] < nn.len() by {
                        if a == slf {
                            let oj = if j < i { j } else { j + 1 };
                            assert(nn[a].child_indices()[j] == o[a].child_indices()[oj]);
                        } else {
                            assert(nn[a] == o[a]);
                        }
                    }
                    assert forall|a: int| 0 <= a < nn.len() implies (#[trigger] nn[a].parent_index() matches Some(p) ==> p < nn.len()) by {
                        if a != slf {
                            assert(nn[a] == o[a]);
                        }
                    }
                }
                true
            },
            None => false,
        }
    }
}

impl RootFSNode {
    /// Adds a folder named `name` to the folder `slf` of `fs`; its index.
    pub fn new_folder(fs: &mut RootFS, slf: usize, name: &str) -> (r: usize)
        requires
            old(fs).wf(),
            slf < old(fs).nodes().len(),
        ensures
            final(fs).wf(),
            r == old(fs).nodes().len(),
            final(fs).nodes().len() == old(fs).nodes().len() + 1,
            final(fs).nodes()[r as int].path_view() == append_component(
                old(fs).nodes()[slf as int].path_view(),
                name@,
            ),
            final(fs).nodes()[r as int].parent_index() == Some(slf),
            final(fs).nodes()[r as int].child_indices().len() == 0,
            final(fs).nodes()[slf as int].child_indices() == old(fs).nodes()[slf as int].child_indices().push(r),
            final(fs).nodes()[slf as int].path_view() == old(fs).nodes()[slf as int].path_view(),
            final(fs).nodes()[slf as int].parent_index() == old(fs).nodes()[slf as int].parent_index(),
            forall|i: int| 0 <= i < old(fs).nodes().len() && i != slf ==> #[trigger] final(fs).nodes()[i] == old(fs).nodes()[i],
    {
        fs.add_folder(slf, name)
    }

    /// Deletes the first child of `slf` that has no children and is named
    /// `name` (see [`RootFS::remove_child`]); whether there was one.
    pub fn del_folder(fs: &mut RootFS, slf: usize, name: &str) -> (r: bool)
        requires
            old(fs).wf(),
            slf < old(fs).nodes().len(),
        ensures
            final(fs).wf(),
            final(fs).nodes().len() == old(fs).nodes().len(),
            forall|i: int| 0 <= i < old(fs).nodes().len() && i != slf ==> #[trigger] final(fs).nodes()[i] == old(fs).nodes()[i],
            final(fs).nodes()[slf as int].path_view() == old(fs).nodes()[slf as int].path_view(),
            ({
                let cs = old(fs).nodes()[slf as int].child_indices();
                if r {
                    exists|i: int|
                        0 <= i < cs.len() && deletable(old(fs).nodes(), cs[i], name@) && (forall|k: int|
                            0 <= k < i ==> !deletable(old(fs).nodes(), #[trigger] cs[k], name@))
                            && final(fs).nodes()[slf as int].child_indices() == cs.remove(i)
                } else {
                    (forall|k: int| 0 <= k < cs.len() ==> !deletable(old(fs).nodes(), #[trigger] cs[k], name@))
                        && final(fs).nodes()[slf as int].child_indices() == cs
                }
            }),
    {
        fs.remove_child(slf, name)
    }

    /// The first child of `slf` named `name` (see [`RootFS::find_child`]).
    pub fn find_folder(fs: &RootFS, slf: usize, name: &str) -> (r: Option<usize>)
        requires
            fs.wf(),
            slf < fs.nodes().len(),
        ensures
            match r {
                Some(c) => exists|i: int|
                    0 <= i < fs.nodes()[slf as int].child_indices().len()
                        && fs.nodes()[slf as int].child_indices()[i] == c && named(fs.nodes(), c, name@)
                        && forall|k: int| 0 <= k < i ==> !named(fs.nodes(), #[trigger] fs.nodes()[slf as int].child_indices()[k], name@),
                None => forall|k: int|
                    0 <= k < fs.nodes()[slf as int].child_indices().len() ==> !named(
                        fs.nodes(),
                        #[trigger] fs.nodes()[slf as int].child_indices()[k],
                        name@,
                    ),
            },
    {
        fs.find_child(slf, name)
    }
}

/// Whether `c` has the Unicode `White_Space` property (what
/// `char::is_whitespace` and `str::trim` go by).
pub open spec fn white_space(c: char) -> bool {
    let u = c as u32;
    ||| 0x09 <= u <= 0x0d
    ||| u == 0x20
    ||| u == 0x85
    ||| u == 0xa0
    ||| u == 0x1680
    ||| 0x2000 <= u <= 0x200a
    ||| u == 0x2028
    ||| u == 0x2029
    ||| u == 0x202f
    ||| u == 0x205f
    ||| u == 0x3000
}

fn is_white_space(c: char) -> (r: bool)
    ensures
        r == white_space(c),
{
    let u = c as u32;
    (0x09 <= u && u <= 0x0d) || u == 0x20 || u == 0x85 || u == 0xa0 || u == 0x1680 || (0x2000 <= u && u
        <= 0x200a) || u == 0x2028 || u == 0x2029 || u == 0x202f || u == 0x205f || u == 0x3000
}

/// Every character of `s` before `i` is white space.
pub open spec fn white_before(s: Seq<char>, i: int) -> bool {
    forall|k: int| 0 <= k < i ==> white_space(#[trigger] s[k])
}

/// Every character of `s` from `j` on is white space.
pub open spec fn white_from(s: Seq<char>, j: int) -> bool {
    forall|k: int| j <= k < s.len() ==> white_space(#[trigger] s[k])
}

/// `s` without the white space at its start and end, as `str::trim` gives it.
pub open spec fn trimmed(s: Seq<char>) -> Seq<char> {
    if white_before(s, s.len() as int) {
        Seq::empty()
    } else {
        let i = choose|i: int| #![trigger white_before(s, i)] 0 <= i < s.len() && !white_space(s[i]) && white_before(s, i);
        let j = choose|j: int| #![trigger white_from(s, j)] i < j <= s.len() && !white_space(s[j - 1]) && white_from(s, j);
        s.subrange(i, j)
    }
}

/// `s` without the white space at its start and end.
fn trim(s: &str) -> (r: &str)
    ensures
        r@ == trimmed(s@),
{
    let n = s.unicode_len();
    let mut i: usize = 0;
    while i < n && is_white_space(s.get_char(i))
        invariant
            i <= n,
            n == s@.len(),
            white_before(s@, i as int),
        decreases n - i,
    {
        i = i + 1;
    }
    if i == n {
        return s.substring_char(0, 0);
    }
    let mut j: usize = n;
    while j > i && is_white_space(s.get_char(j - 1))
        invariant
            i < n,
            i < j <= n,
            n == s@.len(),
            !white_space(s@[i as int]),
            white_from(s@, j as int),
        decreases j,
    {
        j = j - 1;
    }
    proof {
        assert(!white_before(s@, s@.len() as int)) by {
            assert(!white_space(s@[i as int]));
        }
        assert(white_before(s@, i as int));
        let ci = choose|ci: int| #![trigger white_before(s@, ci)] 0 <= ci < s@.len() && !white_space(s@[ci]) && white_before(s@, ci);
        if ci < i {
            assert(white_space(s@[ci]));
        } else if ci > i {
            assert(white_space(s@[i as int]));
        }
        assert(white_from(s@, j as int));
        let cj = choose|cj: int| #![trigger white_from(s@, cj)] ci < cj <= s@.len() && !white_space(s@[cj - 1]) && white_from(s@, cj);
        if cj < j {
            assert(white_space(s@[j - 1]));
        } else if cj > j {
            assert(white_space(s@[cj - 1]));
        }
    }
    s.substring_char(i, j)
}

/// The parts of `s` split at `/`, from the first to the last, empty ones
/// included.
pub open spec fn split_parts(s: Seq<char>) -> Seq<Seq<char>>
    decreases s.len(),
{
    if exists|k: int| 0 <= k < s.len() && s[k] == '/' {
        let k = choose|k: int| 0 <= k < s.len() && s[k] == '/' && forall|j: int| 0 <= j < k ==> s[j] != '/';
        if 0 <= k < s.len() {
            seq![s.subrange(0, k)] + split_parts(s.subrange(k + 1, s.len() as int))
        } else {
            seq![s]
        }
    } else {
        seq![s]
    }
}

/// The first of the folders `cs` that is named `name`.
pub open spec fn first_named(nodes: Seq<RootFSNode>, cs: Seq<usize>, name: Seq<char>) -> Option<usize>
    decreases cs.len(),
{
    if cs.len() == 0 {
        None
    } else if named(nodes, cs[0], name) {
        Some(cs[0])
    } else {
        first_named(nodes, cs.drop_first(), name)
    }
}

/// Where [`Path::get_rootfs_node`] gets to from folder `cur`, whose path is
/// `cur_path`, with the parts `parts` of `target` still to follow: each part,
/// trimmed, is looked for among the children (empty ones are passed over),
/// and the walk stops once the path walked is `target` or the parts run out.
pub open spec fn rootfs_walk(
    nodes: Seq<RootFSNode>,
    cur: usize,
    cur_path: Seq<char>,
    target: Seq<char>,
    parts: Seq<Seq<char>>,
) -> Option<usize>
    decreases parts.len(),
{
    if cur_path == target || parts.len() == 0 {
        Some(cur)
    } else {
        let part = trimmed(parts[0]);
        if part.len() == 0 {
            rootfs_walk(nodes, cur, cur_path, target, parts.drop_first())
        } else {
            match first_named(nodes, nodes[cur as int].child_indices(), part) {
                Some(c) => rootfs_walk(nodes, c, append_component(cur_path, part), target, parts.drop_first()),
                None => None,
            }
        }
    }
}

/// One step of [`rootfs_walk`]: the part `part` taken, then `tail`.
proof fn lemma_walk_step(
    nodes: Seq<RootFSNode>,
    cur: usize,
    cur_path: Seq<char>,
    target: Seq<char>,
    part: Seq<char>,
    tail: Seq<Seq<char>>,
)
    requires
        cur_path != target,
    ensures
        rootfs_walk(nodes, cur, cur_path, target, seq![part] + tail) == if trimmed(part).len() == 0 {
            rootfs_walk(nodes, cur, cur_path, target, tail)
        } else {
            match first_named(nodes, nodes[cur as int].child_indices(), trimmed(part)) {
                Some(c) => rootfs_walk(nodes, c, append_component(cur_path, trimmed(part)), target, tail),
                None => None,
            }
        },
{
    let parts = seq![part] + tail;
    assert(parts[0] == part);
    assert(parts.drop_first() =~= tail);
}

impl RootFS {
    /// The first child of `slf` named `name` (see [`first_named`]).
    fn first_named_child(&self, slf: usize, name: &str) -> (r: Option<usize>)
        requires
            self.wf(),
            slf < self.nodes().len(),
        ensures
            r == first_named(self.nodes(), self.nodes()[slf as int].child_indices(), name@),
            r matches Some(c) ==> c < self.nodes().len(),
    {
        let children = &self.nodes[slf].children;
        let ghost cs = children@;
        let mut i: usize = 0;
        assert(cs.subrange(0, cs.len() as int) =~= cs);
        while i < children.len()
            invariant
                self.wf(),
                slf < self.nodes().len(),
                *children == self.nodes@[slf as int].children,
                cs == children@,
                i <= cs.len(),
                first_named(self.nodes(), cs, name@) == first_named(self.nodes(), cs.subrange(i as int, cs.len() as int), name@),
            decreases cs.len() - i,
        {
            let c = children[i];
            assert(self.nodes()[slf as int].child_indices()[i as int] == c);
            let ghost t = cs.subrange(i as int, cs.len() as int);
            assert(t[0] == c);
            assert(t.drop_first() =~= cs.subrange(i + 1, cs.len() as int));
            if let Some(last) = self.nodes[c].path.last() {
                if str_eq(last, name) {
                    return Some(c);
                }
            }
            i = i + 1;
        }
        assert(cs.subrange(i as int, cs.len() as int) =~= Seq::<usize>::empty());
        None
    }
}

impl Path {
    /// The folder of the root file system `fs` at this path: from the root,
    /// each part of the path, trimmed, is looked for among the children of
    /// the folder reached (empty parts are passed over), until the path
    /// walked is this one or the parts run out; `None` where a part is
    /// missing.
    pub fn get_rootfs_node(&self, fs: &RootFS) -> (r: Option<usize>)
        requires
            fs.wf(),
        ensures
            r == rootfs_walk(fs.nodes(), 0, seq!['/'], self.view(), split_parts(self.view())),
            r matches Some(c) ==> c < fs.nodes().len(),
    {
        let s = self.inner.as_str();
        let n = s.unicode_len();
        let mut cur: usize = 0;
        let mut cur_path = Path::root();
        let mut from: usize = 0;
        let mut more = true;
        assert(s@.subrange(0, n as int) =~= s@);
        while more
            invariant
                fs.wf(),
                cur < fs.nodes().len(),
                n == s@.len(),
                s@ == self.view(),
                from <= n,
                more ==> rootfs_walk(fs.nodes(), 0, seq!['/'], self.view(), split_parts(self.view()))
                    == rootfs_walk(fs.nodes(), cur, cur_path.view(), self.view(), split_parts(s@.subrange(from as int, n as int))),
                !more ==> rootfs_walk(fs.nodes(), 0, seq!['/'], self.view(), split_parts(self.view())) == Some(cur),
            decreases n - from + (if more { 1int } else { 0int }),
        {
            let ghost rest = s@.subrange(from as int, n as int);
            if cur_path.same_as(self) {
                more = false;
            } else {
                let (end, next) = find_slash_from(s, from);
                let part = s.substring_char(from, end);
                let ghost tail = match next {
                    Some(k) => split_parts(s@.subrange(k + 1, n as int)),
                    None => Seq::<Seq<char>>::empty(),
                };
                proof {
                    lemma_split_step(s@, from as int, n as int, end as int, next);
                    lemma_walk_step(fs.nodes(), cur, cur_path.view(), self.view(), part@, tail);
                }
                let to_find = trim(part);
                if to_find.unicode_len() == 0 {
                } else {
                    match fs.first_named_child(cur, to_find) {
                        Some(c) => {
                            cur = c;
                            cur_path.append_str(to_find);
                        },
                        None => {
                            return None;
                        },
                    }
                }
                match next {
                    Some(k) => {
                        from = k + 1;
                    },
                    None => {
                        proof {
                            assert(tail.len() == 0);
                        }
                        more = false;
                    },
                }
            }
        }
        Some(cur)
    }
}

/// The first `/` in `s` from `from` on, before `s`'s end: where the part from
/// `from` ends, and the slash's place (`None` where there is none).
fn find_slash_from(s: &str, from: usize) -> (r: (usize, Option<usize>))
    requires
        from <= s@.len(),
    ensures
        from <= r.0 <= s@.len(),
        forall|j: int| from <= j < r.0 ==> s@[j] != '/',
        match r.1 {
            Some(k) => k == r.0 && k < s@.len() && s@[k as int] == '/',
            None => r.0 == s@.len(),
        },
{
    let n = s.unicode_len();
    let mut i = from;
    while i < n
        invariant
            from <= i <= n,
            n == s@.len(),
            forall|j: int| from <= j < i ==> s@[j] != '/',
        decreases n - i,
    {
        if s.get_char(i) == '/' {
            return (i, Some(i));
        }
        i = i + 1;
    }
    (n, None)
}

/// One step of splitting: the parts of `s[from..n]` are the part up to the
/// first `/` and then the parts after it.
proof fn lemma_split_step(s: Seq<char>, from: int, n: int, end: int, next: Option<usize>)
    requires
        0 <= from <= end <= n == s.len(),
        forall|j: int| from <= j < end ==> s[j] != '/',
        match next {
            Some(k) => k == end && end < n && s[end] == '/',
            None => end == n,
        },
    ensures
        split_parts(s.subrange(from, n)) == seq![s.subrange(from, end)] + match next {
            Some(k) => split_parts(s.subrange(k + 1, n)),
            None => Seq::<Seq<char>>::empty(),
        },
{
    let t = s.subrange(from, n);
    match next {
        Some(k) => {
            let rel = end - from;
            assert(t[rel] == '/');
            let c = choose|c: int| 0 <= c < t.len() && t[c] == '/' && forall|j: int| 0 <= j < c ==> t[j] != '/';
            assert(0 <= c < t.len() && t[c] == '/' && forall|j: int| 0 <= j < c ==> t[j] != '/');
            if c < rel {
                assert(s[from + c] != '/');
            } else if c > rel {
                assert(t[rel] != '/');
            }
            assert(t.subrange(0, rel) =~= s.subrange(from, end));
            assert(t.subrange(rel + 1, t.len() as int) =~= s.subrange(k + 1, n));
        },
        None => {
            assert forall|c: int| 0 <= c < t.len() implies t[c] != '/' by {
                assert(s[from + c] != '/');
            }
            assert(t =~= s.subrange(from, end));
            assert(seq![t] + Seq::<Seq<char>>::empty() =~= seq![t]);
        },
    }
}

/// What a node of the virtual file system is.
#[derive(Debug, Clone, Copy, PartialEq, Eq, Structural)]
pub enum NodeType {
    File,
    Folder,
}

/// A node of the virtual file system: a file or a folder.
#[derive(Debug, Clone)]
pub enum Node<F, D> {
    File(F),
    Folder(D),
}

impl<F, D> Node<F, D> {
    /// The folder; the node must be one.
    pub fn expect_folder(self) -> (r: D)
        requires
            self is Folder,
        ensures
            self == Node::<F, D>::Folder(r),
    {
        match self {
            Node::Folder(f) => f,
            Node::File(_) => unreached(),
        }
    }

    /// The file; the node must be one.
    pub fn expect_file(self) -> (r: F)
        requires
            self is File,
        ensures
            self == Node::<F, D>::File(r),
    {
        match self {
            Node::File(f) => f,
            Node::Folder(_) => unreached(),
        }
    }
}

/// A folder that a file system offers.
pub trait IFolder<F, D> {
    fn get_children(&self) -> Vec<(String, Node<F, D>)>;

    fn create_empty_child(&mut self, name: &str, typ: NodeType) -> Option<Node<F, D>>;

    fn unlink_or_delete_empty_child(&mut self, name: &str) -> Option<()>;
}

/// A file that a file system offers, seen as its bytes. File systems and
/// drivers implement it; the contracts say what each must do.
pub trait IFile {
    /// The bytes of the file.
    spec fn data(&self) -> Seq<u8>;

    /// Whether the file promises that reading `len` bytes from `offset` on
    /// succeeds. A file that promises nothing keeps this default.
    open spec fn reads_succeed(&self, offset: u64, len: usize) -> bool {
        false
    }

    /// The `len` bytes from `offset` on; `None` where they cannot be read,
    /// never where the file promises the read succeeds.
    fn read(&self, offset: u64, len: usize) -> (r: Option<Vec<u8>>)
        ensures
            r matches Some(v) ==> offset + len <= self.data().len() && v@ == self.data().subrange(
                offset as int,
                offset + len,
            ),
            self.reads_succeed(offset, len) ==> r is Some,
    ;

    /// Writes `data` from `offset` on: the number of bytes written, or `None`
    /// where writing failed.
    fn write(&mut self, offset: u64, data: &[u8]) -> (r: Option<usize>)
        ensures
            r matches Some(n) ==> n <= data@.len() && offset + n <= final(self).data().len()
                && final(self).data().subrange(offset as int, offset + n) == data@.subrange(0, n as int),
    ;

    fn get_size(&self) -> (r: u64)
        ensures
            r == self.data().len(),
    ;

    /// Changes the size of the file; `None` where it cannot.
    fn resize(&mut self, new_size: u64) -> (r: Option<()>)
        ensures
            r is Some ==> final(self).data().len() == new_size,
    ;
}

} // verus!
