//! The selection pipeline: include and exclude glob patterns are validated
//! first (fail fast), then expanded against the filesystem; matches that are
//! regular files are kept, any path also matched by an exclude pattern is
//! dropped, and the result is deduplicated while keeping the first-occurrence
//! order.
//!
//! Paths are handled as byte vectors holding the bytes of their textual
//! form, as the glob expansion yields them (a path name that is not valid
//! Unicode is carried in its lossy rendering). Which paths a pattern matches
//! is the filesystem's answer, so the pipeline is proved for every answer
//! the glob expansion may give.

use vstd::prelude::*;
use vstd::seq_lib::lemma_seq_contains_after_push;
use vstd::string::StrSliceExecFns;

verus! {

/// Whether a glob pattern compiles. Validity depends on the pattern text
/// alone; what it is in full is `glob::Pattern::new`'s business.
pub uninterp spec fn pattern_ok(p: Seq<char>) -> bool;

/// `[lo, hi)` is one separator-delimited component of `s`: a maximal run of
/// characters free of `/`, bounded by the pattern's ends or by `/`.
pub open spec fn is_component(s: Seq<char>, lo: int, hi: int) -> bool {
    &&& 0 <= lo <= hi <= s.len()
    &&& (lo == 0 || s[lo - 1] == '/')
    &&& (hi == s.len() || s[hi] == '/')
    &&& forall|k: int| lo <= k < hi ==> s[k] != '/'
}

/// Every separator-delimited component of the pattern compiles on its own.
/// The glob expansion compiles each component separately before walking, so
/// a pattern that passes only as a whole would still fail there.
pub open spec fn components_ok(s: Seq<char>) -> bool {
    forall|lo: int, hi: int| #[trigger] is_component(s, lo, hi) ==> pattern_ok(s.subrange(lo, hi))
}

/// A pattern fit for expansion: it compiles as a whole and component by
/// component, the two checks the expansion itself makes before any walk.
pub open spec fn glob_pattern_ok(s: Seq<char>) -> bool {
    pattern_ok(s) && components_ok(s)
}

/// A failure of the selection pipeline, reported before any file is touched
/// (an invalid pattern, with its place in the list it came from) or while
/// the filesystem was walked.
#[derive(Clone, Copy, Debug, PartialEq, Eq, Structural)]
pub enum SelectError {
    /// The include pattern at this index does not compile.
    InvalidInclude(usize),
    /// The exclude pattern at this index does not compile.
    InvalidExclude(usize),
    /// The filesystem could not be read while a pattern was expanded.
    Io,
}

impl SelectError {
    /// A human-readable description of the failure.
    pub fn message(&self) -> &'static str {
        match self {
            SelectError::InvalidInclude(_) => "invalid include pattern",
            SelectError::InvalidExclude(_) => "invalid exclude pattern",
            SelectError::Io => "could not read the filesystem while expanding a pattern",
        }
    }
}

/// Relies on `glob::Pattern::new`: whether a pattern compiles is a function
/// of the pattern text alone, so the result is named by `pattern_ok`.
#[verifier::external_body]
fn pattern_valid(pattern: &str) -> (r: bool)
    ensures
        r == pattern_ok(pattern@),
{
    glob::Pattern::new(pattern).is_ok()
}

/// Walk the pattern's maximal separator-free runs and check each with
/// `pattern_valid`: exactly the per-component compilation the expansion
/// repeats before it walks the filesystem.
fn components_valid(p: &str) -> (r: bool)
    ensures
        r == components_ok(p@),
{
    let n = p.unicode_len();
    let mut i: usize = 0;
    while i <= n
        invariant
            n == p@.len(),
            i <= n,
            i == 0 || p@[i - 1] == '/',
            forall|lo: int, hi: int|
                is_component(p@, lo, hi) && hi < i ==> pattern_ok(p@.subrange(lo, hi)),
        decreases n - i,
    {
        let mut j: usize = i;
        while j < n && p.get_char(j) != '/'
            invariant
                n == p@.len(),
                i <= j <= n,
                forall|k: int| i <= k < j ==> p@[k] != '/',
            decreases n - j,
        {
            j += 1;
        }
        let comp = p.substring_char(i, j);
        let ok = pattern_valid(comp);
        proof {
            assert(is_component(p@, i as int, j as int));
        }
        if !ok {
            proof {
                if components_ok(p@) {
                    assert(pattern_ok(p@.subrange(i as int, j as int)));
                }
            }
            return false;
        }
        proof {
            assert forall|lo: int, hi: int|
                is_component(p@, lo, hi) && hi < j + 1 implies pattern_ok(
                p@.subrange(lo, hi),
            ) by {
                if hi >= i {
                    assert(hi == j);
                    if lo < i {
                        assert(p@[i - 1] == '/');
                    }
                    if lo > i {
                        assert(p@[lo - 1] != '/');
                    }
                    assert(lo == i);
                }
            }
        }
        if j >= n {
            proof {
                assert forall|lo: int, hi: int| #[trigger] is_component(p@, lo, hi) implies
                    pattern_ok(p@.subrange(lo, hi)) by {
                    assert(hi < j + 1);
                }
            }
            return true;
        }
        i = j + 1;
    }
    true
}

/// A pattern fit for expansion: compiles as a whole and component by
/// component.
fn glob_pattern_valid(p: &str) -> (r: bool)
    ensures
        r == glob_pattern_ok(p@),
{
    if !pattern_valid(p) {
        return false;
    }
    components_valid(p)
}

/// Relies on `glob::glob_with`: expands a pattern against the filesystem,
/// matching case-sensitively or not as asked. Which paths come back is the
/// filesystem's answer, so nothing is promised of them; `None` reports a
/// directory that could not be read during the walk. The expansion opens by
/// compiling the whole pattern and each separator-delimited component — the
/// same checks `glob_pattern_ok` demands of every admitted pattern.
#[verifier::external_body]
fn glob_expand(pattern: &str, case_sensitive: bool) -> (r: Option<Vec<Vec<u8>>>)
    requires
        glob_pattern_ok(pattern@),
{
    let options =
        glob::MatchOptions { case_sensitive, require_literal_separator: false, require_literal_leading_dot: false };
    let entries = match glob::glob_with(pattern, options) { Ok(entries) => entries, Err(_) => return None };
    let mut out: Vec<Vec<u8>> = Vec::new();
    for entry in entries {
        match entry {
            Ok(path) => out.push(path.to_string_lossy().into_owned().into_bytes()),
            Err(_) => return None,
        }
    }
    Some(out)
}

/// Relies on `std::path::Path::is_file`: answers whether the path names a
/// regular file at this moment. The filesystem decides, so nothing is
/// promised of the result.
#[verifier::external_body]
fn path_is_file(path: &Vec<u8>) -> (r: bool) {
    let text = String::from_utf8_lossy(path).into_owned();
    std::path::Path::new(&text).is_file()
}

/// The paths a vector holds, each as its byte sequence.
pub open spec fn paths_view(v: Vec<Vec<u8>>) -> Seq<Seq<u8>> {
    Seq::new(v@.len(), |i: int| v@[i]@)
}

/// No path stands in the sequence twice.
pub open spec fn paths_distinct(s: Seq<Seq<u8>>) -> bool {
    forall|i: int, j: int| 0 <= i < j < s.len() ==> s[i] != s[j]
}

/// The selected paths: every include match that is not excluded, first
/// occurrence only, in order.
pub open spec fn select_spec(inc: Seq<Seq<u8>>, excl: Seq<Seq<u8>>) -> Seq<Seq<u8>>
    decreases inc.len(),
{
    if inc.len() == 0 {
        Seq::<Seq<u8>>::empty()
    } else {
        let prefix = select_spec(inc.drop_last(), excl);
        let p = inc.last();
        if excl.contains(p) || inc.drop_last().contains(p) {
            prefix
        } else {
            prefix.push(p)
        }
    }
}

/// A path is selected exactly when some include pattern matched it and no
/// exclude pattern did.
pub proof fn lemma_select_membership(inc: Seq<Seq<u8>>, excl: Seq<Seq<u8>>)
    ensures
        forall|q: Seq<u8>|
            #[trigger] select_spec(inc, excl).contains(q) <==> inc.contains(q) && !excl.contains(
                q,
            ),
    decreases inc.len(),
{
    if inc.len() == 0 {
        assert forall|q: Seq<u8>| !#[trigger] select_spec(inc, excl).contains(q) by {
            assert(select_spec(inc, excl).len() == 0);
        }
        assert forall|q: Seq<u8>| !inc.contains(q) by {
            assert(inc.len() == 0);
        }
    } else {
        let p = inc.last();
        let rest = inc.drop_last();
        let prefix = select_spec(rest, excl);
        lemma_select_membership(rest, excl);
        assert(inc =~= rest.push(p));
        assert forall|q: Seq<u8>| #[trigger] inc.contains(q) <==> rest.contains(q) || q == p by {
            lemma_seq_contains_after_push(rest, p, q);
        }
        if excl.contains(p) || rest.contains(p) {
            assert(select_spec(inc, excl) == prefix);
        } else {
            assert(select_spec(inc, excl) == prefix.push(p));
            assert forall|q: Seq<u8>|
                #[trigger] prefix.push(p).contains(q) <==> prefix.contains(q) || q == p by {
                lemma_seq_contains_after_push(prefix, p, q);
            }
        }
    }
}

/// The selected paths are pairwise distinct: a path matched by several
/// include patterns appears at most once.
pub proof fn lemma_select_distinct(inc: Seq<Seq<u8>>, excl: Seq<Seq<u8>>)
    ensures
        paths_distinct(select_spec(inc, excl)),
    decreases inc.len(),
{
    if inc.len() == 0 {
    } else {
        let p = inc.last();
        let rest = inc.drop_last();
        let prefix = select_spec(rest, excl);
        lemma_select_distinct(rest, excl);
        if excl.contains(p) || rest.contains(p) {
        } else {
            lemma_select_membership(rest, excl);
            assert(!prefix.contains(p));
            let out = prefix.push(p);
            assert forall|i: int, j: int| 0 <= i < j < out.len() implies out[i] != out[j] by {
                if j == out.len() - 1 {
                    if out[i] == p {
                        assert(prefix[i] == p);
                        assert(prefix.contains(p));
                    }
                } else {
                    assert(out[i] == prefix[i] && out[j] == prefix[j]);
                }
            }
        }
    }
}

/// Exclusion dominates inclusion: a path matched by any exclude pattern is
/// never selected, however the include and exclude lists are ordered.
pub proof fn lemma_exclude_dominates(inc: Seq<Seq<u8>>, excl: Seq<Seq<u8>>, q: Seq<u8>)
    requires
        excl.contains(q),
    ensures
        !select_spec(inc, excl).contains(q),
{
    lemma_select_membership(inc, excl);
}

/// A path matched by include patterns and by no exclude pattern appears in
/// the selection exactly once: it is there, and nothing is there twice.
pub proof fn lemma_include_once(inc: Seq<Seq<u8>>, excl: Seq<Seq<u8>>, q: Seq<u8>)
    requires
        inc.contains(q),
        !excl.contains(q),
    ensures
        select_spec(inc, excl).contains(q),
        paths_distinct(select_spec(inc, excl)),
{
    lemma_select_membership(inc, excl);
    lemma_select_distinct(inc, excl);
}

/// A byte-for-byte copy of a path.
pub fn copy_path(p: &Vec<u8>) -> (r: Vec<u8>)
    ensures
        r@ == p@,
{
    let mut r: Vec<u8> = Vec::new();
    let mut j: usize = 0;
    while j < p.len()
        invariant
            j <= p.len(),
            r@ == p@.take(j as int),
        decreases p.len() - j,
    {
        r.push(p[j]);
        j += 1;
        proof {
            assert(p@.take(j as int) =~= p@.take(j - 1).push(p@[j - 1]));
        }
    }
    proof {
        assert(p@.take(p@.len() as int) =~= p@);
    }
    r
}

/// Whether two paths hold the same bytes.
pub fn bytes_eq(a: &Vec<u8>, b: &Vec<u8>) -> (r: bool)
    ensures
        r == (a@ == b@),
{
    if a.len() != b.len() {
        return false;
    }
    let mut i: usize = 0;
    while i < a.len()
        invariant
            i <= a.len(),
            a@.len() == b@.len(),
            forall|j: int| 0 <= j < i ==> a@[j] == b@[j],
        decreases a.len() - i,
    {
        if a[i] != b[i] {
            return false;
        }
        i += 1;
    }
    proof {
        assert(a@ =~= b@);
    }
    true
}

/// Whether `p` already stands in `list`.
pub fn contains_path(list: &Vec<Vec<u8>>, p: &Vec<u8>) -> (r: bool)
    ensures
        r == paths_view(*list).contains(p@),
{
    let mut i: usize = 0;
    while i < list.len()
        invariant
            i <= list.len(),
            forall|j: int| 0 <= j < i ==> paths_view(*list)[j] != p@,
        decreases list.len() - i,
    {
        if bytes_eq(&list[i], p) {
            proof {
                assert(paths_view(*list)[i as int] == p@);
            }
            return true;
        }
        i += 1;
    }
    proof {
        if paths_view(*list).contains(p@) {
            let k = choose|k: int|
                0 <= k < paths_view(*list).len() && paths_view(*list)[k] == p@;
            assert(paths_view(*list)[k] != p@);
        }
    }
    false
}

/// Drop every include match that an exclude pattern also matched, and every
/// later occurrence of a path already kept: the Path Set, in first-occurrence
/// order.
pub fn select_from_matches(inc: &Vec<Vec<u8>>, excl: &Vec<Vec<u8>>) -> (r: Vec<Vec<u8>>)
    ensures
        paths_view(r) == select_spec(paths_view(*inc), paths_view(*excl)),
{
    let ghost incv = paths_view(*inc);
    let ghost exclv = paths_view(*excl);
    let mut r: Vec<Vec<u8>> = Vec::new();
    let mut i: usize = 0;
    proof {
        assert(incv.take(0) =~= Seq::<Seq<u8>>::empty());
        assert(paths_view(r) =~= Seq::<Seq<u8>>::empty());
    }
    while i < inc.len()
        invariant
            i <= inc.len(),
            incv == paths_view(*inc),
            exclv == paths_view(*excl),
            paths_view(r) == select_spec(incv.take(i as int), exclv),
        decreases inc.len() - i,
    {
        let ghost pre = paths_view(r);
        let p = &inc[i];
        proof {
            assert(incv[i as int] == p@);
        }
        let in_excl = contains_path(excl, p);
        let already = contains_path(&r, p);
        proof {
            lemma_select_membership(incv.take(i as int), exclv);
        }
        if !in_excl && !already {
            let c = copy_path(p);
            r.push(c);
            proof {
                assert(paths_view(r) =~= pre.push(p@));
            }
        }
        i += 1;
        proof {
            let s = incv.take(i as int);
            assert(s.drop_last() =~= incv.take(i - 1));
            assert(s.last() == incv[i - 1]);
            if in_excl || already {
                assert(exclv.contains(incv[i - 1]) || incv.take(i - 1).contains(incv[i - 1]));
                assert(paths_view(r) == select_spec(s, exclv));
            } else {
                assert(!exclv.contains(incv[i - 1]) && !incv.take(i - 1).contains(incv[i - 1]));
                assert(paths_view(r) == select_spec(s, exclv));
            }
        }
    }
    proof {
        assert(incv.take(inc@.len() as int) =~= incv);
    }
    r
}

/// Resolve include and exclude patterns into the Path Set.
///
/// Every pattern is validated first; the first one that does not compile —
/// as a whole or in one of its components — is reported with its place,
/// before any file is touched. Then the exclude patterns and the include
/// patterns are expanded, only matches that are regular files are kept,
/// excluded paths are dropped, and the rest is deduplicated in
/// first-occurrence order. An empty include list selects nothing, without
/// touching the filesystem. A pattern that matches nothing is not an error.
pub fn select_paths(includes: &Vec<String>, excludes: &Vec<String>, case_sensitive: bool) -> (r:
    Result<Vec<Vec<u8>>, SelectError>)
    ensures
        r matches Err(SelectError::InvalidInclude(i)) ==> i < includes@.len() && !glob_pattern_ok(
            includes@[i as int]@,
        ) && forall|j: int| 0 <= j < i ==> glob_pattern_ok(includes@[j]@),
        r matches Err(SelectError::InvalidExclude(i)) ==> i < excludes@.len() && !glob_pattern_ok(
            excludes@[i as int]@,
        ) && (forall|j: int| 0 <= j < includes@.len() ==> glob_pattern_ok(includes@[j]@))
            && forall|j: int| 0 <= j < i ==> glob_pattern_ok(excludes@[j]@),
        (exists|j: int| 0 <= j < includes@.len() && !glob_pattern_ok(includes@[j]@))
            ==> r matches Err(SelectError::InvalidInclude(_)),
        (forall|j: int| 0 <= j < includes@.len() ==> glob_pattern_ok(includes@[j]@)) && (exists|
            j: int,
        | 0 <= j < excludes@.len() && !glob_pattern_ok(excludes@[j]@)) ==> r matches Err(
            SelectError::InvalidExclude(_),
        ),
        (forall|j: int| 0 <= j < includes@.len() ==> glob_pattern_ok(includes@[j]@)) && (forall|
            j: int,
        | 0 <= j < excludes@.len() ==> glob_pattern_ok(excludes@[j]@)) ==> !(r matches Err(
            SelectError::InvalidInclude(_),
        )) && !(r matches Err(SelectError::InvalidExclude(_))),
        includes@.len() == 0 && (forall|j: int|
            0 <= j < excludes@.len() ==> glob_pattern_ok(excludes@[j]@)) ==> (r matches Ok(v)
            && v@.len() == 0),
        r matches Ok(v) ==> (forall|j: int| 0 <= j < includes@.len() ==> glob_pattern_ok(
            includes@[j]@,
        )) && (forall|j: int| 0 <= j < excludes@.len() ==> glob_pattern_ok(excludes@[j]@)),
        r matches Ok(v) ==> paths_distinct(paths_view(v)),
        r matches Ok(v) ==> (includes@.len() == 0 ==> v@.len() == 0),
{
    let mut idx: usize = 0;
    while idx < includes.len()
        invariant
            idx <= includes@.len(),
            forall|j: int| 0 <= j < idx ==> glob_pattern_ok(includes@[j]@),
        decreases includes.len() - idx,
    {
        if !glob_pattern_valid(includes[idx].as_str()) {
            return Err(SelectError::InvalidInclude(idx));
        }
        idx += 1;
    }
    let mut k: usize = 0;
    while k < excludes.len()
        invariant
            k <= excludes@.len(),
            forall|j: int| 0 <= j < includes@.len() ==> glob_pattern_ok(includes@[j]@),
            forall|j: int| 0 <= j < k ==> glob_pattern_ok(excludes@[j]@),
        decreases excludes.len() - k,
    {
        if !glob_pattern_valid(excludes[k].as_str()) {
            return Err(SelectError::InvalidExclude(k));
        }
        k += 1;
    }
    if includes.len() == 0 {
        let empty: Vec<Vec<u8>> = Vec::new();
        return Ok(empty);
    }
    let mut excl_files: Vec<Vec<u8>> = Vec::new();
    let mut k: usize = 0;
    while k < excludes.len()
        invariant
            k <= excludes@.len(),
            includes@.len() > 0,
            forall|j: int| 0 <= j < includes@.len() ==> glob_pattern_ok(includes@[j]@),
            forall|j: int| 0 <= j < excludes@.len() ==> glob_pattern_ok(excludes@[j]@),
        decreases excludes.len() - k,
    {
        let expanded = match glob_expand(excludes[k].as_str(), case_sensitive) {
            Some(paths) => paths,
            None => {
                return Err(SelectError::Io);
            },
        };
        let mut j: usize = 0;
        while j < expanded.len()
            invariant
                j <= expanded.len(),
            decreases expanded.len() - j,
        {
            if path_is_file(&expanded[j]) {
                let c = copy_path(&expanded[j]);
                excl_files.push(c);
            }
            j += 1;
        }
        k += 1;
    }
    let mut inc_files: Vec<Vec<u8>> = Vec::new();
    let mut k: usize = 0;
    while k < includes.len()
        invariant
            k <= includes@.len(),
            includes@.len() > 0,
            forall|j: int| 0 <= j < includes@.len() ==> glob_pattern_ok(includes@[j]@),
            forall|j: int| 0 <= j < excludes@.len() ==> glob_pattern_ok(excludes@[j]@),
        decreases includes.len() - k,
    {
        let expanded = match glob_expand(includes[k].as_str(), case_sensitive) {
            Some(paths) => paths,
            None => {
                return Err(SelectError::Io);
            },
        };
        let mut j: usize = 0;
        while j < expanded.len()
            invariant
                j <= expanded.len(),
            decreases expanded.len() - j,
        {
            if path_is_file(&expanded[j]) {
                let c = copy_path(&expanded[j]);
                inc_files.push(c);
            }
            j += 1;
        }
        k += 1;
    }
    let selected = select_from_matches(&inc_files, &excl_files);
    proof {
        lemma_select_distinct(paths_view(inc_files), paths_view(excl_files));
    }
    Ok(selected)
}

} // verus!
