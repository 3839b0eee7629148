//! The credential resolver: which sources are consulted, in which order, and
//! how their outcomes become the ordered list of candidate passwords.

use vstd::prelude::*;
use crate::text::{
    leading_whitespace, lemma_skip_ws_bounds, lemma_trim_end_bounds, lines_of, split_lines, trim,
    trim_end, trim_end_at,
};

verus! {

/// A place a password may come from.
pub enum CredentialSource {
    /// The value of the password variable itself.
    EnvironmentVariable(String),
    /// The file that the password-file variable names.
    EnvironmentVariableFile(String),
    /// The default password file in the home directory.
    DefaultFile(String),
    /// One `label@path` entry of the identity list.
    IdentityListEntry(String, String),
}

/// What a [`CredentialSource`] holds, as character sequences.
pub enum SourceView {
    EnvironmentVariable(Seq<char>),
    EnvironmentVariableFile(Seq<char>),
    DefaultFile(Seq<char>),
    IdentityListEntry(Seq<char>, Seq<char>),
}

impl View for CredentialSource {
    type V = SourceView;

    open spec fn view(&self) -> SourceView {
        match self {
            CredentialSource::EnvironmentVariable(v) => SourceView::EnvironmentVariable(v@),
            CredentialSource::EnvironmentVariableFile(p) => SourceView::EnvironmentVariableFile(p@),
            CredentialSource::DefaultFile(p) => SourceView::DefaultFile(p@),
            CredentialSource::IdentityListEntry(l, p) => SourceView::IdentityListEntry(l@, p@),
        }
    }
}

/// The views of a list of sources.
pub open spec fn sources_view(v: Seq<CredentialSource>) -> Seq<SourceView> {
    v.map_values(|s: CredentialSource| s@)
}

/// Pieces of `s[start..]` between separators `c`, scanning from `i`.
pub open spec fn split_acc(s: Seq<char>, c: char, start: int, i: int) -> Seq<Seq<char>>
    decreases s.len() - i,
{
    if i >= s.len() {
        seq![s.subrange(start, s.len() as int)]
    } else if s[i] == c {
        seq![s.subrange(start, i)] + split_acc(s, c, i + 1, i + 1)
    } else {
        split_acc(s, c, start, i + 1)
    }
}

/// The pieces of `s` between separators `c`, as `str::split` gives them.
pub open spec fn split_on(s: Seq<char>, c: char) -> Seq<Seq<char>> {
    split_acc(s, c, 0, 0)
}

/// Index of the first `c` in `s` at or after `i`, or `s.len()`.
pub open spec fn find_from(s: Seq<char>, c: char, i: int) -> int
    decreases s.len() - i,
{
    if i < 0 || i >= s.len() {
        s.len() as int
    } else if s[i] == c {
        i
    } else {
        find_from(s, c, i + 1)
    }
}

/// The `(label, path)` of one identity-list entry, once trimmed and split at its
/// first `@`; `None` when it has no `@` or an empty label.
pub open spec fn identity_entry(e: Seq<char>) -> Option<(Seq<char>, Seq<char>)> {
    let t = trim(e);
    let p = find_from(t, '@', 0);
    if p < t.len() && p > 0 {
        Some((t.subrange(0, p), t.subrange(p + 1, t.len() as int)))
    } else {
        None
    }
}

/// The identity entries of the pieces `parts`, in order.
pub open spec fn identity_entries(parts: Seq<Seq<char>>) -> Seq<SourceView>
    decreases parts.len(),
{
    if parts.len() == 0 {
        seq![]
    } else {
        identity_entries(parts.drop_last()) + match identity_entry(parts.last()) {
            Some((l, p)) => seq![SourceView::IdentityListEntry(l, p)],
            None => seq![],
        }
    }
}

/// The sources that a comma-separated identity list names.
pub open spec fn identity_sources(list: Seq<char>) -> Seq<SourceView> {
    identity_entries(split_on(list, ','))
}

proof fn lemma_find_bounds(s: Seq<char>, c: char, i: int)
    requires
        0 <= i <= s.len(),
    ensures
        i <= find_from(s, c, i) <= s.len(),
        find_from(s, c, i) < s.len() ==> s[find_from(s, c, i)] == c,
    decreases s.len() - i,
{
    if i < s.len() && s[i] != c {
        lemma_find_bounds(s, c, i + 1);
    }
}

/// Splits `s` at each `c`, as `str::split` does.
pub fn split_at_char(s: &str, c: char) -> (r: Vec<String>)
    ensures
        r.deep_view() == split_on(s@, c),
{
    let n = s.unicode_len();
    let mut out: Vec<String> = Vec::new();
    let mut start: usize = 0;
    let mut i: usize = 0;
    while i < n
        invariant
            n == s@.len(),
            start <= i <= n,
            split_on(s@, c) == out.deep_view() + split_acc(s@, c, start as int, i as int),
        decreases n - i,
    {
        if s.get_char(i) == c {
            let piece = String::from_str(s.substring_char(start, i));
            let ghost before = out.deep_view();
            out.push(piece);
            assert(out.deep_view() =~= before + seq![piece@]);
            assert(split_on(s@, c) =~= out.deep_view() + split_acc(s@, c, i + 1, i + 1));
            start = i + 1;
        }
        i = i + 1;
    }
    let piece = String::from_str(s.substring_char(start, n));
    let ghost before = out.deep_view();
    out.push(piece);
    assert(out.deep_view() =~= before + seq![piece@]);
    assert(split_on(s@, c) =~= out.deep_view());
    out
}

/// `s` without leading or trailing whitespace.
pub fn trim_str(s: &str) -> (r: String)
    ensures
        r@ == trim(s@),
{
    let e = trim_end_at(s, s.unicode_len());
    proof {
        lemma_trim_end_bounds(s@, s@.len() as int);
    }
    let t = s.substring_char(0, e);
    assert(t@ == trim_end(s@));
    let b = leading_whitespace(t);
    proof {
        lemma_skip_ws_bounds(t@, 0);
    }
    String::from_str(t.substring_char(b, e))
}

/// Index of the first `c` in `s`, or the length of `s`.
fn find_char(s: &str, c: char) -> (r: usize)
    ensures
        r == find_from(s@, c, 0),
{
    let n = s.unicode_len();
    let mut i: usize = 0;
    while i < n && s.get_char(i) != c
        invariant
            n == s@.len(),
            i <= n,
            find_from(s@, c, 0) == find_from(s@, c, i as int),
        decreases n - i,
    {
        i = i + 1;
    }
    i
}

/// Reads one identity-list entry into a source; `None` when it has no `@` or
/// an empty label.
pub fn parse_identity(entry: &str) -> (r: Option<CredentialSource>)
    ensures
        r is Some <==> identity_entry(entry@) is Some,
        r matches Some(src) ==> src@ == SourceView::IdentityListEntry(
            identity_entry(entry@)->Some_0.0,
            identity_entry(entry@)->Some_0.1,
        ),
{
    let t = trim_str(entry);
    let p = find_char(t.as_str(), '@');
    proof {
        lemma_find_bounds(t@, '@', 0);
    }
    let n = t.as_str().unicode_len();
    if p < n && p > 0 {
        let label = String::from_str(t.as_str().substring_char(0, p));
        let path = String::from_str(t.as_str().substring_char(p + 1, n));
        Some(CredentialSource::IdentityListEntry(label, path))
    } else {
        None
    }
}

/// The sources that a comma-separated list of `label@path` entries names, in
/// order; entries without `@` or with an empty label are left out.
pub fn parse_identity_list(list: &str) -> (r: Vec<CredentialSource>)
    ensures
        sources_view(r@) == identity_sources(list@),
{
    let parts = split_at_char(list, ',');
    let ghost ps = parts.deep_view();
    let mut out: Vec<CredentialSource> = Vec::new();
    let mut k: usize = 0;
    while k < parts.len()
        invariant
            k <= parts.len(),
            ps == parts.deep_view(),
            sources_view(out@) == identity_entries(ps.subrange(0, k as int)),
        decreases parts.len() - k,
    {
        assert(ps[k as int] == parts[k as int]@);
        assert(ps.subrange(0, k + 1).drop_last() =~= ps.subrange(0, k as int));
        let ghost before = out@;
        match parse_identity(parts[k].as_str()) {
            Some(src) => {
                let ghost sv = src@;
                out.push(src);
                assert(sources_view(out@) =~= sources_view(before) + seq![sv]);
            },
            None => {},
        }
        k = k + 1;
    }
    assert(ps.subrange(0, parts.len() as int) =~= ps);
    out
}

/// The sources to consult, in order: the password variable's value, then the
/// password file (the one the password-file variable names, else the default
/// file when it exists), then each identity-list entry.
pub open spec fn planned_sources(
    password: Option<Seq<char>>,
    password_file: Option<Seq<char>>,
    default_file: Option<Seq<char>>,
    identity_list: Option<Seq<char>>,
) -> Seq<SourceView> {
    (match password {
        Some(v) => seq![SourceView::EnvironmentVariable(v)],
        None => seq![],
    }) + (match password_file {
        Some(p) => seq![SourceView::EnvironmentVariableFile(p)],
        None => match default_file {
            Some(p) => seq![SourceView::DefaultFile(p)],
            None => seq![],
        },
    }) + (match identity_list {
        Some(l) => identity_sources(l),
        None => seq![],
    })
}

/// The characters of an optional string.
pub open spec fn opt_view(o: Option<String>) -> Option<Seq<char>> {
    match o {
        Some(s) => Some(s@),
        None => None,
    }
}

/// Orders the credential sources. `password`, `password_file` and
/// `identity_list` are the values of the three variables, when set;
/// `default_file` is the default password file's path when that file exists.
pub fn plan_sources(
    password: Option<String>,
    password_file: Option<String>,
    default_file: Option<String>,
    identity_list: Option<String>,
) -> (r: Vec<CredentialSource>)
    ensures
        sources_view(r@) == planned_sources(
            opt_view(password),
            opt_view(password_file),
            opt_view(default_file),
            opt_view(identity_list),
        ),
{
    let ghost pw = opt_view(password);
    let ghost pf = opt_view(password_file);
    let ghost df = opt_view(default_file);
    let ghost il = opt_view(identity_list);
    let mut out: Vec<CredentialSource> = Vec::new();
    match password {
        Some(v) => out.push(CredentialSource::EnvironmentVariable(v)),
        None => {},
    }
    match password_file {
        Some(p) => out.push(CredentialSource::EnvironmentVariableFile(p)),
        None => match default_file {
            Some(p) => out.push(CredentialSource::DefaultFile(p)),
            None => {},
        },
    }
    let ghost first = sources_view(out@);
    assert(first =~= planned_sources(pw, pf, df, None));
    match identity_list {
        Some(l) => {
            let mut ids = parse_identity_list(l.as_str());
            let ghost added = sources_view(ids@);
            out.append(&mut ids);
            assert(sources_view(out@) =~= first + added);
        },
        None => {},
    }
    assert(sources_view(out@) =~= planned_sources(pw, pf, df, il));
    out
}

/// Why no usable list of credentials could be built.
pub enum CredentialError {
    /// Every source was absent, failed where failure is allowed, or was empty.
    NoCredentialFound,
    /// A password file could not be read; the message says why.
    FileUnreadable(String),
    /// A password helper program failed; this is what it wrote to its
    /// standard error.
    ProcessFailed(String),
}

/// What a [`CredentialError`] holds, as character sequences.
pub enum CredentialErrorView {
    NoCredentialFound,
    FileUnreadable(Seq<char>),
    ProcessFailed(Seq<char>),
}

impl View for CredentialError {
    type V = CredentialErrorView;

    open spec fn view(&self) -> CredentialErrorView {
        match self {
            CredentialError::NoCredentialFound => CredentialErrorView::NoCredentialFound,
            CredentialError::FileUnreadable(m) => CredentialErrorView::FileUnreadable(m@),
            CredentialError::ProcessFailed(m) => CredentialErrorView::ProcessFailed(m@),
        }
    }
}

impl CredentialError {
    /// A copy of this error.
    pub fn duplicate(&self) -> (r: CredentialError)
        ensures
            r@ == self@,
    {
        match self {
            CredentialError::NoCredentialFound => CredentialError::NoCredentialFound,
            CredentialError::FileUnreadable(m) => CredentialError::FileUnreadable(m.clone()),
            CredentialError::ProcessFailed(m) => CredentialError::ProcessFailed(m.clone()),
        }
    }
}

/// What consulting a source gave, as character sequences.
pub open spec fn outcome_view(o: Result<String, CredentialError>) -> Result<
    Seq<char>,
    CredentialErrorView,
> {
    match o {
        Ok(s) => Ok(s@),
        Err(e) => Err(e@),
    }
}

/// The views of a list of outcomes.
pub open spec fn outcomes_view(v: Seq<Result<String, CredentialError>>) -> Seq<
    Result<Seq<char>, CredentialErrorView>,
> {
    v.map_values(|o: Result<String, CredentialError>| outcome_view(o))
}

/// `head` before the credentials of `r`, or the error of `r`.
pub open spec fn prepend_credential(
    head: Seq<Seq<char>>,
    r: Result<Seq<Seq<char>>, CredentialErrorView>,
) -> Result<Seq<Seq<char>>, CredentialErrorView> {
    match r {
        Ok(rest) => Ok(head + rest),
        Err(e) => Err(e),
    }
}

/// The credentials that the outcomes from index `k` on give: a non-empty
/// password is kept, an empty one skipped; a failed identity-list entry is
/// skipped, any other failure is fatal.
pub open spec fn collected_from(
    srcs: Seq<SourceView>,
    outs: Seq<Result<Seq<char>, CredentialErrorView>>,
    k: int,
) -> Result<Seq<Seq<char>>, CredentialErrorView>
    decreases outs.len() - k,
{
    if k < 0 || k >= outs.len() {
        Ok(seq![])
    } else {
        match outs[k] {
            Ok(p) => prepend_credential(
                if p.len() > 0 {
                    seq![p]
                } else {
                    seq![]
                },
                collected_from(srcs, outs, k + 1),
            ),
            Err(e) => if srcs[k] is IdentityListEntry {
                collected_from(srcs, outs, k + 1)
            } else {
                Err(e)
            },
        }
    }
}

/// The credential list that the outcomes of the sources give; empty is an
/// error.
pub open spec fn collected(
    srcs: Seq<SourceView>,
    outs: Seq<Result<Seq<char>, CredentialErrorView>>,
) -> Result<Seq<Seq<char>>, CredentialErrorView> {
    match collected_from(srcs, outs, 0) {
        Ok(v) => if v.len() == 0 {
            Err(CredentialErrorView::NoCredentialFound)
        } else {
            Ok(v)
        },
        Err(e) => Err(e),
    }
}

/// Builds the ordered credential list from what consulting each source gave
/// (`outcomes[k]` for `sources[k]`).
pub fn collect_credentials(
    sources: &Vec<CredentialSource>,
    outcomes: &Vec<Result<String, CredentialError>>,
) -> (r: Result<Vec<String>, CredentialError>)
    requires
        sources.len() == outcomes.len(),
    ensures
        ({
            let c = collected(sources_view(sources@), outcomes_view(outcomes@));
            &&& r matches Ok(v) ==> c == Ok::<Seq<Seq<char>>, CredentialErrorView>(v.deep_view())
            &&& r matches Err(e) ==> c == Err::<Seq<Seq<char>>, CredentialErrorView>(e@)
        }),
{
    let ghost srcs = sources_view(sources@);
    let ghost outs = outcomes_view(outcomes@);
    let mut out: Vec<String> = Vec::new();
    let mut k: usize = 0;
    while k < outcomes.len()
        invariant
            k <= outcomes.len() == sources.len(),
            srcs == sources_view(sources@),
            outs == outcomes_view(outcomes@),
            collected_from(srcs, outs, 0) == prepend_credential(
                out.deep_view(),
                collected_from(srcs, outs, k as int),
            ),
        decreases outcomes.len() - k,
    {
        let ghost before = out.deep_view();
        assert(outs[k as int] == outcome_view(outcomes@[k as int]));
        assert(srcs[k as int] == sources@[k as int]@);
        match &outcomes[k] {
            Ok(p) => {
                if p.as_str().unicode_len() > 0 {
                    out.push(p.clone());
                    assert(out.deep_view() =~= before + seq![p@]);
                } else {
                    assert(out.deep_view() =~= before + Seq::<Seq<char>>::empty());
                }
                assert(collected_from(srcs, outs, 0) == prepend_credential(
                    out.deep_view(),
                    collected_from(srcs, outs, k + 1),
                )) by {
                    let rest = collected_from(srcs, outs, k + 1);
                    if rest is Ok {
                        let h = if p@.len() > 0 { seq![p@] } else { seq![] };
                        assert(before + (h + rest->Ok_0) =~= (before + h) + rest->Ok_0);
                    }
                }
            },
            Err(e) => {
                let is_identity = match &sources[k] {
                    CredentialSource::IdentityListEntry(_, _) => true,
                    _ => false,
                };
                if !is_identity {
                    return Err(e.duplicate());
                }
            },
        }
        k = k + 1;
    }
    if out.len() == 0 {
        return Err(CredentialError::NoCredentialFound);
    }
    assert(out.deep_view() + seq![] =~= out.deep_view());
    Ok(out)
}

/// A failed identity-list entry changes nothing: the credentials come out as
/// if that entry had not been listed.
pub proof fn lemma_failed_identity_skipped(
    srcs: Seq<SourceView>,
    outs: Seq<Result<Seq<char>, CredentialErrorView>>,
    k: int,
)
    requires
        srcs.len() == outs.len(),
        0 <= k < outs.len(),
        srcs[k] is IdentityListEntry,
        outs[k] is Err,
    ensures
        collected(srcs, outs) == collected(srcs.remove(k), outs.remove(k)),
{
    lemma_skipped_from(srcs, outs, k, 0);
}

proof fn lemma_skipped_from(
    srcs: Seq<SourceView>,
    outs: Seq<Result<Seq<char>, CredentialErrorView>>,
    k: int,
    i: int,
)
    requires
        srcs.len() == outs.len(),
        0 <= i <= k < outs.len(),
        srcs[k] is IdentityListEntry,
        outs[k] is Err,
    ensures
        collected_from(srcs, outs, i) == collected_from(srcs.remove(k), outs.remove(k), i),
    decreases k - i,
{
    if i < k {
        lemma_skipped_from(srcs, outs, k, i + 1);
        assert(srcs.remove(k)[i] == srcs[i]);
        assert(outs.remove(k)[i] == outs[i]);
    } else {
        lemma_shifted_from(srcs, outs, k, k);
    }
}

proof fn lemma_shifted_from(
    srcs: Seq<SourceView>,
    outs: Seq<Result<Seq<char>, CredentialErrorView>>,
    k: int,
    j: int,
)
    requires
        srcs.len() == outs.len(),
        0 <= k <= j < outs.len(),
    ensures
        collected_from(srcs.remove(k), outs.remove(k), j) == collected_from(srcs, outs, j + 1),
    decreases outs.len() - j,
{
    if j + 1 < outs.len() {
        lemma_shifted_from(srcs, outs, k, j + 1);
        assert(srcs.remove(k)[j] == srcs[j + 1]);
        assert(outs.remove(k)[j] == outs[j + 1]);
    }
}

/// What a password helper program gives: on success the first line of its
/// standard output (empty when it wrote none), on failure its standard error.
pub open spec fn helper_outcome(success: bool, stdout: Seq<char>, stderr: Seq<char>) -> Result<
    Seq<char>,
    CredentialErrorView,
> {
    if !success {
        Err(CredentialErrorView::ProcessFailed(stderr))
    } else if lines_of(stdout).len() > 0 {
        Ok(lines_of(stdout)[0])
    } else {
        Ok(seq![])
    }
}

/// Reads the password out of a helper program's run: `success` is whether it
/// exited with status zero.
pub fn helper_password(success: bool, stdout: &str, stderr: &str) -> (r: Result<
    String,
    CredentialError,
>)
    ensures
        outcome_view(r) == helper_outcome(success, stdout@, stderr@),
{
    if !success {
        return Err(CredentialError::ProcessFailed(String::from_str(stderr)));
    }
    let lines = split_lines(stdout);
    if lines.len() > 0 {
        assert(lines.deep_view()[0] == lines[0]@);
        Ok(lines[0].clone())
    } else {
        Ok(String::new())
    }
}

} // verus!
