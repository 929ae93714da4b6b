//! Rules on the raw member list of a class, before any type is known.

use crate::errors::Diagnostic;
use crate::errors::ErrorCode;
use crate::seq_facts::positions;
use crate::syntax::MemberNode;
use crate::syntax::MethodKind;
use crate::syntax::PrivateName;
use crate::syntax::PropName;
use crate::syntax::Span;
use vstd::prelude::*;

verus! {

/// A position marked with a flag: whether the member there is static, is
/// abstract, or is a constructor.
pub type Marked = (Span, bool);

/// One diagnostic with `code` for each entry that carries `mark`, in the
/// order of the entries.
pub open spec fn marked_errors(spans: Seq<Marked>, mark: bool, code: ErrorCode) -> Seq<Diagnostic>
    decreases spans.len(),
{
    if spans.len() == 0 {
        Seq::empty()
    } else {
        let before = marked_errors(spans.drop_last(), mark, code);
        if spans.last().1 == mark {
            before.push(Diagnostic { code, span: spans.last().0 })
        } else {
            before
        }
    }
}

/// Whether an entry carries `mark`.
pub open spec fn any_marked(spans: Seq<Marked>, mark: bool) -> bool {
    exists|k: int| 0 <= k < spans.len() && (#[trigger] spans[k]).1 == mark
}

/// Whether the entries carry both marks.
pub open spec fn is_mixed(spans: Seq<Marked>) -> bool {
    any_marked(spans, true) && any_marked(spans, false)
}

/// Tells whether an entry carries `mark`.
fn has_marked(spans: &Vec<Marked>, mark: bool) -> (found: bool)
    ensures
        found == any_marked(spans@, mark),
{
    let mut k: usize = 0;
    while k < spans.len()
        invariant
            k <= spans.len(),
            forall|i: int| 0 <= i < k ==> (#[trigger] spans@[i]).1 != mark,
        decreases spans.len() - k,
    {
        if spans[k].1 == mark {
            return true;
        }
        k += 1;
    }
    false
}

/// Appends one diagnostic with `code` for each entry that carries `mark`.
fn push_marked(errors: &mut Vec<Diagnostic>, spans: &Vec<Marked>, mark: bool, code: ErrorCode)
    ensures
        final(errors)@ == old(errors)@ + marked_errors(spans@, mark, code),
{
    let mut k: usize = 0;
    while k < spans.len()
        invariant
            k <= spans.len(),
            errors@ == old(errors)@ + marked_errors(spans@.take(k as int), mark, code),
        decreases spans.len() - k,
    {
        let entry = spans[k];
        assert(spans@.take(k + 1).drop_last() =~= spans@.take(k as int));
        if entry.1 == mark {
            errors.push(Diagnostic { code, span: entry.0 });
        }
        k += 1;
    }
    assert(spans@.take(k as int) =~= spans@);
}

// ---------------------------------------------------------------------
// Duplicate member names
// ---------------------------------------------------------------------
/// A member that takes part in the search for duplicate names.
pub struct Candidate<K> {
    pub key: K,
    pub is_static: bool,
    /// Whether the member is a property, as opposed to a method.
    pub is_prop: bool,
    pub kind: MethodKind,
}

/// The candidate that a member with a public name stands for: a method
/// with a body, or a property. Accessors and signatures stand for none.
pub open spec fn public_candidate(member: MemberNode) -> Option<Candidate<PropName>> {
    match member {
        MemberNode::Method(m) => if m.kind == MethodKind::Method && m.has_body {
            Some(Candidate { key: m.key, is_static: m.is_static, is_prop: false, kind: m.kind })
        } else {
            None
        },
        MemberNode::ClassProp(p) => Some(
            Candidate {
                key: p.key,
                is_static: p.is_static,
                is_prop: true,
                kind: MethodKind::Method,
            },
        ),
        _ => None,
    }
}

/// The candidate that a member with a private name stands for: a method,
/// a getter or a setter with a body, or a property.
pub open spec fn private_candidate(member: MemberNode) -> Option<Candidate<PrivateName>> {
    match member {
        MemberNode::PrivateMethod(m) => if m.has_body {
            Some(Candidate { key: m.key, is_static: m.is_static, is_prop: false, kind: m.kind })
        } else {
            None
        },
        MemberNode::PrivateProp(p) => Some(
            Candidate {
                key: p.key,
                is_static: p.is_static,
                is_prop: true,
                kind: MethodKind::Method,
            },
        ),
        _ => None,
    }
}

/// Whether two candidates are a getter and a setter.
pub open spec fn is_accessor_pair<K>(l: Candidate<K>, r: Candidate<K>) -> bool {
    !l.is_prop && !r.is_prop && (l.kind == MethodKind::Getter && r.kind == MethodKind::Setter
        || l.kind == MethodKind::Setter && r.kind == MethodKind::Getter)
}

/// Whether two candidates of equal name are reported as duplicates: they
/// are both static or both not, are not two properties (which are reported
/// when their types are known), and are not a getter and a setter.
pub open spec fn is_duplicate<K>(l: Candidate<K>, r: Candidate<K>) -> bool {
    l.is_static == r.is_static && !(l.is_prop && r.is_prop) && !is_accessor_pair(l, r)
}

/// What candidate `i` of the public names is reported for on account of
/// candidate `j`.
pub open spec fn public_pair_error(c: Seq<Candidate<PropName>>, i: int, j: int) -> Option<
    Diagnostic,
> {
    if i != j && c[i].key.same_name(c[j].key) && is_duplicate(c[i], c[j]) {
        Some(Diagnostic { code: ErrorCode::DuplicateNameWithoutName, span: c[i].key.span })
    } else {
        None
    }
}

/// What candidate `i` of the private names is reported for on account of
/// candidate `j`: a duplicate, or a name that an earlier candidate declared
/// with the other staticness.
pub open spec fn private_pair_error(c: Seq<Candidate<PrivateName>>, i: int, j: int) -> Option<
    Diagnostic,
> {
    if i != j && c[i].key.same_name(c[j].key) {
        if c[i].is_static == c[j].is_static {
            if is_duplicate(c[i], c[j]) {
                Some(
                    Diagnostic { code: ErrorCode::DuplicateNameWithoutName, span: c[i].key.span },
                )
            } else {
                None
            }
        } else if j < i {
            Some(
                Diagnostic { code: ErrorCode::DuplicatePrivateStaticInstance, span: c[i].key.span },
            )
        } else {
            None
        }
    } else {
        None
    }
}

/// The diagnostics for the candidates of the public names: for each
/// candidate in order, one for each other candidate that it clashes with.
pub open spec fn public_duplicates(c: Seq<Candidate<PropName>>) -> Seq<Diagnostic> {
    Seq::new(
        c.len(),
        |i: int| positions(c.len()).filter_map(|j: int| public_pair_error(c, i, j)),
    ).flatten()
}

/// The diagnostics for the candidates of the private names: for each
/// candidate in order, one for each other candidate that it clashes with.
pub open spec fn private_duplicates(c: Seq<Candidate<PrivateName>>) -> Seq<Diagnostic> {
    Seq::new(
        c.len(),
        |i: int| positions(c.len()).filter_map(|j: int| private_pair_error(c, i, j)),
    ).flatten()
}

/// The diagnostics for members that declare one name twice: those of the
/// public names, then those of the private names.
pub open spec fn duplicate_member_errors(body: Seq<MemberNode>) -> Seq<Diagnostic> {
    public_duplicates(body.filter_map(|m: MemberNode| public_candidate(m))) + private_duplicates(
        body.filter_map(|m: MemberNode| private_candidate(m)),
    )
}

/// A copy of the name.
fn copy_name(name: &PropName) -> (copy: PropName)
    ensures
        copy == *name,
{
    PropName { kind: name.kind, text: name.text.clone(), optional: name.optional, span: name.span }
}

/// A copy of the private name.
fn copy_private_name(name: &PrivateName) -> (copy: PrivateName)
    ensures
        copy == *name,
{
    PrivateName { text: name.text.clone(), span: name.span }
}

/// Collects the candidates with public names.
fn collect_public(body: &Vec<MemberNode>) -> (found: Vec<Candidate<PropName>>)
    ensures
        found@ == body@.filter_map(|m: MemberNode| public_candidate(m)),
{
    let ghost pick = |m: MemberNode| public_candidate(m);
    let mut found: Vec<Candidate<PropName>> = Vec::new();
    let mut k: usize = 0;
    while k < body.len()
        invariant
            k <= body.len(),
            pick == |m: MemberNode| public_candidate(m),
            found@ == body@.take(k as int).filter_map(pick),
        decreases body.len() - k,
    {
        proof {
            body@.lemma_filter_map_take_succ(pick, k as int);
        }
        match &body[k] {
            MemberNode::Method(m) => {
                if m.kind == MethodKind::Method && m.has_body {
                    found.push(
                        Candidate {
                            key: copy_name(&m.key),
                            is_static: m.is_static,
                            is_prop: false,
                            kind: m.kind,
                        },
                    );
                }
            },
            MemberNode::ClassProp(p) => {
                found.push(
                    Candidate {
                        key: copy_name(&p.key),
                        is_static: p.is_static,
                        is_prop: true,
                        kind: MethodKind::Method,
                    },
                );
            },
            _ => {},
        }
        k += 1;
    }
    assert(body@.take(k as int) =~= body@);
    found
}

/// Collects the candidates with private names.
fn collect_private(body: &Vec<MemberNode>) -> (found: Vec<Candidate<PrivateName>>)
    ensures
        found@ == body@.filter_map(|m: MemberNode| private_candidate(m)),
{
    let ghost pick = |m: MemberNode| private_candidate(m);
    let mut found: Vec<Candidate<PrivateName>> = Vec::new();
    let mut k: usize = 0;
    while k < body.len()
        invariant
            k <= body.len(),
            pick == |m: MemberNode| private_candidate(m),
            found@ == body@.take(k as int).filter_map(pick),
        decreases body.len() - k,
    {
        proof {
            body@.lemma_filter_map_take_succ(pick, k as int);
        }
        match &body[k] {
            MemberNode::PrivateMethod(m) => {
                if m.has_body {
                    found.push(
                        Candidate {
                            key: copy_private_name(&m.key),
                            is_static: m.is_static,
                            is_prop: false,
                            kind: m.kind,
                        },
                    );
                }
            },
            MemberNode::PrivateProp(p) => {
                found.push(
                    Candidate {
                        key: copy_private_name(&p.key),
                        is_static: p.is_static,
                        is_prop: true,
                        kind: MethodKind::Method,
                    },
                );
            },
            _ => {},
        }
        k += 1;
    }
    assert(body@.take(k as int) =~= body@);
    found
}

/// Tells whether two candidates are a getter and a setter.
fn accessor_pair<K>(l: &Candidate<K>, r: &Candidate<K>) -> (pair: bool)
    ensures
        pair == is_accessor_pair(*l, *r),
{
    !l.is_prop && !r.is_prop && (l.kind == MethodKind::Getter && r.kind == MethodKind::Setter
        || l.kind == MethodKind::Setter && r.kind == MethodKind::Getter)
}

/// Tells whether two candidates of equal name are reported as duplicates.
fn duplicate<K>(l: &Candidate<K>, r: &Candidate<K>) -> (dup: bool)
    ensures
        dup == is_duplicate(*l, *r),
{
    l.is_static == r.is_static && !(l.is_prop && r.is_prop) && !accessor_pair(l, r)
}

/// Appends the diagnostics for the candidates with public names.
fn report_public(c: &Vec<Candidate<PropName>>, errors: &mut Vec<Diagnostic>)
    ensures
        final(errors)@ == old(errors)@ + public_duplicates(c@),
{
    let n = c.len();
    let ghost rows = Seq::new(
        c@.len(),
        |i: int| positions(c@.len()).filter_map(|j: int| public_pair_error(c@, i, j)),
    );
    let mut i: usize = 0;
    assert(rows.take(0).flatten() =~= Seq::<Diagnostic>::empty());
    while i < n
        invariant
            i <= n,
            n == c.len(),
            rows == Seq::new(
                c@.len(),
                |i: int| positions(c@.len()).filter_map(|j: int| public_pair_error(c@, i, j)),
            ),
            errors@ == old(errors)@ + rows.take(i as int).flatten(),
        decreases n - i,
    {
        let ghost at_row = errors@;
        let ghost pair = |j: int| public_pair_error(c@, i as int, j);
        let ghost all = positions(c@.len());
        let mut j: usize = 0;
        while j < n
            invariant
                j <= n,
                i < n,
                n == c.len(),
                all == positions(c@.len()),
                pair == |j: int| public_pair_error(c@, i as int, j),
                errors@ == at_row + all.take(j as int).filter_map(pair),
            decreases n - j,
        {
            proof {
                all.lemma_filter_map_take_succ(pair, j as int);
            }
            if i != j && c[i].key.is_same_name(&c[j].key) && duplicate(&c[i], &c[j]) {
                errors.push(
                    Diagnostic { code: ErrorCode::DuplicateNameWithoutName, span: c[i].key.span },
                );
            }
            j += 1;
        }
        proof {
            assert(all.take(j as int) =~= all);
            assert(rows[i as int] == all.filter_map(pair));
            assert(rows.take(i + 1) =~= rows.take(i as int).push(rows[i as int]));
            rows.take(i as int).lemma_flatten_push(rows[i as int]);
        }
        i += 1;
    }
    assert(rows.take(i as int) =~= rows);
}

/// Appends the diagnostics for the candidates with private names.
fn report_private(c: &Vec<Candidate<PrivateName>>, errors: &mut Vec<Diagnostic>)
    ensures
        final(errors)@ == old(errors)@ + private_duplicates(c@),
{
    let n = c.len();
    let ghost rows = Seq::new(
        c@.len(),
        |i: int| positions(c@.len()).filter_map(|j: int| private_pair_error(c@, i, j)),
    );
    let mut i: usize = 0;
    assert(rows.take(0).flatten() =~= Seq::<Diagnostic>::empty());
    while i < n
        invariant
            i <= n,
            n == c.len(),
            rows == Seq::new(
                c@.len(),
                |i: int| positions(c@.len()).filter_map(|j: int| private_pair_error(c@, i, j)),
            ),
            errors@ == old(errors)@ + rows.take(i as int).flatten(),
        decreases n - i,
    {
        let ghost at_row = errors@;
        let ghost pair = |j: int| private_pair_error(c@, i as int, j);
        let ghost all = positions(c@.len());
        let mut j: usize = 0;
        while j < n
            invariant
                j <= n,
                i < n,
                n == c.len(),
                all == positions(c@.len()),
                pair == |j: int| private_pair_error(c@, i as int, j),
                errors@ == at_row + all.take(j as int).filter_map(pair),
            decreases n - j,
        {
            proof {
                all.lemma_filter_map_take_succ(pair, j as int);
            }
            if i != j && c[i].key.is_same_name(&c[j].key) {
                if c[i].is_static == c[j].is_static {
                    if duplicate(&c[i], &c[j]) {
                        errors.push(
                            Diagnostic {
                                code: ErrorCode::DuplicateNameWithoutName,
                                span: c[i].key.span,
                            },
                        );
                    }
                } else if j < i {
                    errors.push(
                        Diagnostic {
                            code: ErrorCode::DuplicatePrivateStaticInstance,
                            span: c[i].key.span,
                        },
                    );
                }
            }
            j += 1;
        }
        proof {
            assert(all.take(j as int) =~= all);
            assert(rows[i as int] == all.filter_map(pair));
            assert(rows.take(i + 1) =~= rows.take(i as int).push(rows[i as int]));
            rows.take(i as int).lemma_flatten_push(rows[i as int]);
        }
        i += 1;
    }
    assert(rows.take(i as int) =~= rows);
}

/// Reports the members of a class body that declare one name twice.
///
/// Methods with a body and properties are compared pair by pair, public
/// names among themselves and private names among themselves. Two of equal
/// name and equal staticness are each reported once, unless both are
/// properties or they are a getter and a setter. Two private members of
/// equal name and different staticness have the later one reported.
pub fn report_errors_for_duplicate_class_members(body: &Vec<MemberNode>) -> (errors: Vec<
    Diagnostic,
>)
    ensures
        errors@ == duplicate_member_errors(body@),
{
    let keys = collect_public(body);
    let private_keys = collect_private(body);
    let mut errors: Vec<Diagnostic> = Vec::new();
    report_public(&keys, &mut errors);
    report_private(&private_keys, &mut errors);
    errors
}

// ---------------------------------------------------------------------
// Static and instance overloads
// ---------------------------------------------------------------------
/// Where the search for overloads that are partly static has got to.
pub struct MixScan {
    /// The name positions of the run of signatures, each with whether the
    /// signature is static.
    pub spans: Seq<Marked>,
    /// The name of the run, while one is open.
    pub name: Option<PropName>,
    /// What was reported so far.
    pub errors: Seq<Diagnostic>,
}

/// The diagnostics for a run of signatures: if some are static and some
/// are not, those that differ from the first are reported.
pub open spec fn mixed_static_errors(spans: Seq<Marked>) -> Seq<Diagnostic> {
    if is_mixed(spans) {
        if spans[0].1 {
            marked_errors(spans, false, ErrorCode::ShouldBeStaticMethod)
        } else {
            marked_errors(spans, true, ErrorCode::ShouldBeInstanceMethod)
        }
    } else {
        Seq::empty()
    }
}

/// The search after one more member; `last` says whether it ends the body.
///
/// A method with a body closes the run. A signature opens a run or joins
/// the open one. A signature of another name, or the last member, closes
/// the run, has it judged, and leaves its own position for the next.
pub open spec fn mix_step(s: MixScan, member: MemberNode, last: bool) -> MixScan {
    match member {
        MemberNode::Method(m) => {
            let entry = (m.key.span, m.is_static);
            if m.has_body {
                MixScan { spans: Seq::empty(), name: None, errors: s.errors }
            } else if s.name is None {
                MixScan { spans: s.spans.push(entry), name: Some(m.key), errors: s.errors }
            } else {
                let same = s.name->0.same_written(m.key);
                let run = if last && same {
                    s.spans.push(entry)
                } else {
                    s.spans
                };
                if last || !same {
                    MixScan {
                        spans: seq![entry],
                        name: None,
                        errors: s.errors + mixed_static_errors(run),
                    }
                } else {
                    MixScan { spans: s.spans.push(entry), name: s.name, errors: s.errors }
                }
            }
        },
        _ => s,
    }
}

/// The search after the first `n` members of `body`.
pub open spec fn mix_scan(body: Seq<MemberNode>, n: int) -> MixScan
    decreases n,
{
    if n <= 0 {
        MixScan { spans: Seq::empty(), name: None, errors: Seq::empty() }
    } else {
        mix_step(mix_scan(body, n - 1), body[n - 1], n == body.len())
    }
}

/// The diagnostics for overloads that are partly static and partly not.
/// Declarations without bodies are not searched.
pub open spec fn static_instance_errors(body: Seq<MemberNode>, in_declare: bool) -> Seq<
    Diagnostic,
> {
    if in_declare {
        Seq::empty()
    } else {
        mix_scan(body, body.len() as int).errors
    }
}

/// The name of the method at `at`, if a method stands there.
pub open spec fn method_name_at(body: Seq<MemberNode>, at: Option<usize>) -> Option<PropName> {
    match at {
        Some(k) => Some(body[k as int]->Method_0.key),
        None => None,
    }
}

/// Whether `at` is empty or names a method among the first `n` members.
pub open spec fn names_method(body: Seq<MemberNode>, at: Option<usize>, n: int) -> bool {
    match at {
        Some(k) => k < n && n <= body.len() && body[k as int] is Method,
        None => true,
    }
}

/// Appends the diagnostics for a run of signatures.
fn push_mixed_static(errors: &mut Vec<Diagnostic>, spans: &Vec<Marked>)
    ensures
        final(errors)@ == old(errors)@ + mixed_static_errors(spans@),
{
    if has_marked(spans, true) && has_marked(spans, false) {
        if spans[0].1 {
            push_marked(errors, spans, false, ErrorCode::ShouldBeStaticMethod);
        } else {
            push_marked(errors, spans, true, ErrorCode::ShouldBeInstanceMethod);
        }
    }
}

/// Reports overloads of one method that are partly static and partly
/// instance methods.
///
/// Consecutive signatures of one name form a run. Where a run holds both
/// static and instance signatures, those that differ from the first are
/// reported: as `ShouldBeStaticMethod` where the first is static, else as
/// `ShouldBeInstanceMethod`.
pub fn report_errors_for_statics_mixed_with_instances(
    body: &Vec<MemberNode>,
    in_declare: bool,
) -> (errors: Vec<Diagnostic>)
    ensures
        errors@ == static_instance_errors(body@, in_declare),
{
    let mut errors: Vec<Diagnostic> = Vec::new();
    if in_declare {
        return errors;
    }
    let mut spans: Vec<Marked> = Vec::new();
    let mut name: Option<usize> = None;
    let n = body.len();
    let mut idx: usize = 0;
    while idx < n
        invariant
            idx <= n,
            n == body.len(),
            names_method(body@, name, idx as int),
            mix_scan(body@, idx as int) == (MixScan {
                spans: spans@,
                name: method_name_at(body@, name),
                errors: errors@,
            }),
        decreases n - idx,
    {
        let last = idx + 1 == n;
        match &body[idx] {
            MemberNode::Method(m) => {
                let entry = (m.key.span, m.is_static);
                if m.has_body {
                    spans = Vec::new();
                    name = None;
                } else {
                    match name {
                        None => {
                            name = Some(idx);
                            spans.push(entry);
                        },
                        Some(k) => {
                            let same = match &body[k] {
                                MemberNode::Method(first) => first.key.is_same_written(&m.key),
                                _ => false,
                            };
                            if last && same {
                                spans.push(entry);
                            }
                            if last || !same {
                                push_mixed_static(&mut errors, &spans);
                                name = None;
                                spans = Vec::new();
                                spans.push(entry);
                                assert(spans@ =~= seq![entry]);
                            } else {
                                spans.push(entry);
                            }
                        },
                    }
                }
            },
            _ => {},
        }
        idx += 1;
    }
    errors
}

// ---------------------------------------------------------------------
// Overloads and their implementations
// ---------------------------------------------------------------------
/// Where the search for overloads that are partly abstract has got to.
pub struct AbstractScan {
    /// The name positions of the run of methods, each with whether the
    /// method is abstract.
    pub spans: Seq<Marked>,
    /// The name of the run, while one is open.
    pub name: Option<PropName>,
    /// Whether the method that joined the run last is abstract.
    pub last_was_abstract: bool,
    /// The names of the runs that were found mixed.
    pub mixed_names: Seq<PropName>,
    /// What was reported so far.
    pub errors: Seq<Diagnostic>,
}

/// Whether a method written like `name` stands at `from` or later.
pub open spec fn method_follows(body: Seq<MemberNode>, from: int, name: PropName) -> bool {
    exists|k: int|
        from <= k < body.len() && (#[trigger] body[k]) is Method && body[k]->Method_0.key.same_written(
            name,
        )
}

/// The search after the member at `idx`; `last` says whether it ends the
/// body.
///
/// A method opens a run or joins the open one. A method of another name, or
/// the last member, closes the run: if it holds abstract and concrete
/// methods, those that differ from the one that joined last are reported
/// and the name is kept. Another member that interrupts a run whose name
/// comes again has the run's last position reported.
pub open spec fn abstract_step(s: AbstractScan, body: Seq<MemberNode>, idx: int, last: bool) -> AbstractScan {
    match body[idx] {
        MemberNode::Method(m) => {
            let entry = (m.key.span, m.is_abstract);
            if s.name is None {
                AbstractScan {
                    spans: s.spans.push(entry),
                    name: Some(m.key),
                    last_was_abstract: m.is_abstract,
                    ..s
                }
            } else {
                let same = s.name->0.same_written(m.key);
                let joins = last && same;
                let run = if joins {
                    s.spans.push(entry)
                } else {
                    s.spans
                };
                let last_was_abstract = if joins {
                    m.is_abstract
                } else {
                    s.last_was_abstract
                };
                if last || !same {
                    AbstractScan {
                        spans: seq![entry],
                        name: None,
                        last_was_abstract,
                        mixed_names: if is_mixed(run) {
                            s.mixed_names.push(s.name->0)
                        } else {
                            s.mixed_names
                        },
                        errors: if is_mixed(run) {
                            s.errors + marked_errors(
                                run,
                                !last_was_abstract,
                                ErrorCode::AbstractAndConcreteIsMixed,
                            )
                        } else {
                            s.errors
                        },
                    }
                } else {
                    AbstractScan {
                        spans: s.spans.push(entry),
                        last_was_abstract: m.is_abstract,
                        ..s
                    }
                }
            }
        },
        _ => {
            if s.name is Some && s.spans.len() > 0 && method_follows(body, idx, s.name->0) {
                AbstractScan {
                    errors: s.errors.push(
                        Diagnostic {
                            code: ErrorCode::AbstractClassMethodShouldBeSequential,
                            span: s.spans.last().0,
                        },
                    ),
                    ..s
                }
            } else {
                s
            }
        },
    }
}

/// The search after the first `n` members of `body`.
pub open spec fn abstract_scan(body: Seq<MemberNode>, n: int) -> AbstractScan
    decreases n,
{
    if n <= 0 {
        AbstractScan {
            spans: Seq::empty(),
            name: None,
            last_was_abstract: false,
            mixed_names: Seq::empty(),
            errors: Seq::empty(),
        }
    } else {
        abstract_step(abstract_scan(body, n - 1), body, n - 1, n == body.len())
    }
}

/// Where the search for signatures without implementation has got to.
pub struct OverloadScan {
    /// The name positions of the signatures that wait for an
    /// implementation, each with whether it is a constructor.
    pub spans: Seq<Marked>,
    /// The name that the signatures share, while some wait.
    pub name: Option<PropName>,
    /// What was reported so far.
    pub errors: Seq<Diagnostic>,
    /// The positions in the body of the implementations that follow their
    /// signatures.
    pub implementations: Seq<usize>,
}

/// One diagnostic for each waiting signature, by whether it is a
/// constructor.
pub open spec fn missing_errors(spans: Seq<Marked>) -> Seq<Diagnostic>
    decreases spans.len(),
{
    if spans.len() == 0 {
        Seq::empty()
    } else {
        missing_errors(spans.drop_last()).push(
            Diagnostic {
                code: if spans.last().1 {
                    ErrorCode::ConstructorImplMissingOrNotFollowedByDecl
                } else {
                    ErrorCode::FnImplMissingOrNotFollowedByDecl
                },
                span: spans.last().0,
            },
        )
    }
}

/// The search after a constructor or method named `key` at position `idx`.
///
/// A signature joins the waiting ones of its name, after those of another
/// name were reported; one with an optional name waits for nothing and
/// lets nothing wait. An implementation serves the waiting signatures of
/// its name; those of another name are reported.
pub open spec fn overload_check(
    s: OverloadScan,
    key: PropName,
    has_body: bool,
    is_constructor: bool,
    idx: usize,
) -> OverloadScan {
    let optional = key.kind == crate::syntax::NameKind::Ident && key.optional;
    let same = s.name is Some && s.name->0.same_name_or_computation(key);
    if !has_body {
        let abandon = s.name is Some && !optional && !same;
        let errors = if abandon {
            s.errors + missing_errors(s.spans)
        } else {
            s.errors
        };
        if optional {
            OverloadScan { spans: Seq::empty(), name: None, errors, ..s }
        } else {
            let waiting = if abandon || same {
                Seq::empty()
            } else {
                s.spans
            };
            OverloadScan {
                spans: waiting.push((key.span, is_constructor)),
                name: Some(key),
                errors,
                ..s
            }
        }
    } else if s.name is None {
        OverloadScan { spans: Seq::empty(), name: None, ..s }
    } else if same {
        OverloadScan {
            spans: Seq::empty(),
            name: None,
            implementations: s.implementations.push(idx),
            ..s
        }
    } else {
        OverloadScan {
            spans: Seq::empty(),
            name: None,
            errors: s.errors + missing_errors(s.spans),
            ..s
        }
    }
}

/// Whether one of `names` is the name `key`, or the same computed name.
pub open spec fn is_named_in(names: Seq<PropName>, key: PropName) -> bool {
    exists|k: int| 0 <= k < names.len() && (#[trigger] names[k]).same_name_or_computation(key)
}

/// The search after one more member. Constructors of an abstract class,
/// abstract methods and methods whose overloads were found mixed are
/// passed over, and so is every member that is neither.
pub open spec fn overload_step(
    s: OverloadScan,
    member: MemberNode,
    idx: usize,
    class_is_abstract: bool,
    mixed_names: Seq<PropName>,
) -> OverloadScan {
    match member {
        MemberNode::Constructor(c) => if class_is_abstract {
            s
        } else {
            overload_check(s, c.key, c.has_body, true, idx)
        },
        MemberNode::Method(m) => if m.is_abstract || is_named_in(mixed_names, m.key) {
            s
        } else {
            overload_check(s, m.key, m.has_body, false, idx)
        },
        _ => s,
    }
}

/// The search after the first `n` members of `body`.
pub open spec fn overload_scan(
    body: Seq<MemberNode>,
    n: int,
    class_is_abstract: bool,
    mixed_names: Seq<PropName>,
) -> OverloadScan
    decreases n,
{
    if n <= 0 {
        OverloadScan {
            spans: Seq::empty(),
            name: None,
            errors: Seq::empty(),
            implementations: Seq::empty(),
        }
    } else {
        overload_step(
            overload_scan(body, n - 1, class_is_abstract, mixed_names),
            body[n - 1],
            (n - 1) as usize,
            class_is_abstract,
            mixed_names,
        )
    }
}

/// What the rules on overloads find in a class body.
pub struct AmbientMethods {
    /// The diagnostics, in the order in which they are reported.
    pub errors: Vec<Diagnostic>,
    /// The positions in the body of the implementations that follow
    /// signatures of their name.
    pub implementations: Vec<usize>,
}

/// Whether the rules on overloads are applied at all: not to declarations
/// without bodies, and not to the built-in library.
pub open spec fn overloads_are_checked(in_declare: bool, is_builtin: bool, declare: bool) -> bool {
    !in_declare && !is_builtin && !declare
}

/// The diagnostics of the rules on overloads: first those for overloads
/// that are partly abstract, then those for signatures without
/// implementation, and last those for the signatures that still wait when
/// the body ends.
pub open spec fn ambient_method_errors(
    body: Seq<MemberNode>,
    class_is_abstract: bool,
) -> Seq<Diagnostic> {
    let mixing = abstract_scan(body, body.len() as int);
    let overloads = overload_scan(body, body.len() as int, class_is_abstract, mixing.mixed_names);
    mixing.errors + overloads.errors + missing_errors(overloads.spans)
}

/// The implementations that follow signatures of their name.
pub open spec fn overload_implementations(
    body: Seq<MemberNode>,
    class_is_abstract: bool,
) -> Seq<usize> {
    overload_scan(
        body,
        body.len() as int,
        class_is_abstract,
        abstract_scan(body, body.len() as int).mixed_names,
    ).implementations
}

/// The name of the constructor or method at `at`.
pub open spec fn callable_name_at(body: Seq<MemberNode>, at: Option<usize>) -> Option<PropName> {
    match at {
        Some(k) => Some(
            match body[k as int] {
                MemberNode::Constructor(c) => c.key,
                MemberNode::Method(m) => m.key,
                _ => arbitrary(),
            },
        ),
        None => None,
    }
}

/// Whether `at` is empty or names a constructor or method among the first
/// `n` members.
pub open spec fn names_callable(body: Seq<MemberNode>, at: Option<usize>, n: int) -> bool {
    match at {
        Some(k) => k < n && n <= body.len() && (body[k as int] is Method
            || body[k as int] is Constructor),
        None => true,
    }
}

/// Appends one diagnostic for each waiting signature.
fn push_missing(errors: &mut Vec<Diagnostic>, spans: &Vec<Marked>)
    ensures
        final(errors)@ == old(errors)@ + missing_errors(spans@),
{
    let mut k: usize = 0;
    while k < spans.len()
        invariant
            k <= spans.len(),
            errors@ == old(errors)@ + missing_errors(spans@.take(k as int)),
        decreases spans.len() - k,
    {
        let entry = spans[k];
        assert(spans@.take(k + 1).drop_last() =~= spans@.take(k as int));
        if entry.1 {
            errors.push(
                Diagnostic {
                    code: ErrorCode::ConstructorImplMissingOrNotFollowedByDecl,
                    span: entry.0,
                },
            );
        } else {
            errors.push(
                Diagnostic { code: ErrorCode::FnImplMissingOrNotFollowedByDecl, span: entry.0 },
            );
        }
        k += 1;
    }
    assert(spans@.take(k as int) =~= spans@);
}

/// Tells whether a method written like `name` stands at `from` or later.
fn has_later_method(body: &Vec<MemberNode>, from: usize, name: &PropName) -> (found: bool)
    requires
        from <= body.len(),
    ensures
        found == method_follows(body@, from as int, *name),
{
    let mut k: usize = from;
    while k < body.len()
        invariant
            from <= k <= body.len(),
            forall|i: int|
                from <= i < k ==> !((#[trigger] body@[i]) is Method
                    && body@[i]->Method_0.key.same_written(*name)),
        decreases body.len() - k,
    {
        match &body[k] {
            MemberNode::Method(m) => {
                if m.key.is_same_written(name) {
                    return true;
                }
            },
            _ => {},
        }
        k += 1;
    }
    false
}

/// Tells whether one of `names` is the name `key`, or the same computed
/// name.
fn named_in(names: &Vec<PropName>, key: &PropName) -> (found: bool)
    ensures
        found == is_named_in(names@, *key),
{
    let mut k: usize = 0;
    while k < names.len()
        invariant
            k <= names.len(),
            forall|i: int| 0 <= i < k ==> !(#[trigger] names@[i]).same_name_or_computation(*key),
        decreases names.len() - k,
    {
        if names[k].is_same_name_or_computation(key) {
            return true;
        }
        k += 1;
    }
    false
}

/// The first pass: overloads that are partly abstract. Returns the names of
/// the runs that were found mixed.
fn scan_abstract(body: &Vec<MemberNode>, errors: &mut Vec<Diagnostic>) -> (mixed_names: Vec<
    PropName,
>)
    requires
        old(errors)@.len() == 0,
    ensures
        final(errors)@ == abstract_scan(body@, body@.len() as int).errors,
        mixed_names@ == abstract_scan(body@, body@.len() as int).mixed_names,
{
    let mut mixed_names: Vec<PropName> = Vec::new();
    let mut spans: Vec<Marked> = Vec::new();
    let mut name: Option<usize> = None;
    let mut last_was_abstract = false;
    let n = body.len();
    let mut idx: usize = 0;
    assert(errors@ =~= Seq::empty());
    while idx < n
        invariant
            idx <= n,
            n == body.len(),
            names_method(body@, name, idx as int),
            abstract_scan(body@, idx as int) == (AbstractScan {
                spans: spans@,
                name: method_name_at(body@, name),
                last_was_abstract,
                mixed_names: mixed_names@,
                errors: errors@,
            }),
        decreases n - idx,
    {
        let last = idx + 1 == n;
        match &body[idx] {
            MemberNode::Method(m) => {
                let entry = (m.key.span, m.is_abstract);
                match name {
                    None => {
                        name = Some(idx);
                        spans.push(entry);
                        last_was_abstract = m.is_abstract;
                    },
                    Some(k) => {
                        let same = match &body[k] {
                            MemberNode::Method(first) => first.key.is_same_written(&m.key),
                            _ => false,
                        };
                        if last && same {
                            spans.push(entry);
                            last_was_abstract = m.is_abstract;
                        }
                        if last || !same {
                            if has_marked(&spans, true) && has_marked(&spans, false) {
                                match &body[k] {
                                    MemberNode::Method(first) => {
                                        mixed_names.push(copy_name(&first.key));
                                    },
                                    _ => {},
                                }
                                push_marked(
                                    errors,
                                    &spans,
                                    !last_was_abstract,
                                    ErrorCode::AbstractAndConcreteIsMixed,
                                );
                            }
                            name = None;
                            spans = Vec::new();
                            spans.push(entry);
                            assert(spans@ =~= seq![entry]);
                        } else {
                            last_was_abstract = m.is_abstract;
                            spans.push(entry);
                        }
                    },
                }
            },
            _ => {
                match name {
                    None => {},
                    Some(k) => {
                        let interrupted = match &body[k] {
                            MemberNode::Method(first) => has_later_method(body, idx, &first.key),
                            _ => false,
                        };
                        if interrupted && spans.len() > 0 {
                            errors.push(
                                Diagnostic {
                                    code: ErrorCode::AbstractClassMethodShouldBeSequential,
                                    span: spans[spans.len() - 1].0,
                                },
                            );
                        }
                    },
                }
            },
        }
        idx += 1;
    }
    mixed_names
}

/// Reports overloads that are partly abstract, and signatures that no
/// implementation follows.
///
/// Nothing is reported for declarations without bodies or for the built-in
/// library. The result also names the implementations that follow
/// signatures of their name: a declaration file leaves them out.
pub fn report_errors_for_wrong_ambient_methods_of_class(
    body: &Vec<MemberNode>,
    class_is_abstract: bool,
    in_declare: bool,
    is_builtin: bool,
    declare: bool,
) -> (found: AmbientMethods)
    ensures
        overloads_are_checked(in_declare, is_builtin, declare) ==> found.errors@
            == ambient_method_errors(body@, class_is_abstract) && found.implementations@
            == overload_implementations(body@, class_is_abstract),
        !overloads_are_checked(in_declare, is_builtin, declare) ==> found.errors@.len() == 0
            && found.implementations@.len() == 0,
{
    let mut errors: Vec<Diagnostic> = Vec::new();
    let mut implementations: Vec<usize> = Vec::new();
    if in_declare || is_builtin || declare {
        return AmbientMethods { errors, implementations };
    }
    let mixed_names = scan_abstract(body, &mut errors);
    let ghost reported = errors@;
    let mut spans: Vec<Marked> = Vec::new();
    let mut name: Option<usize> = None;
    let n = body.len();
    let mut idx: usize = 0;
    assert(errors@.skip(reported.len() as int) =~= Seq::empty());
    assert(errors@.take(reported.len() as int) =~= reported);
    while idx < n
        invariant
            idx <= n,
            n == body.len(),
            names_callable(body@, name, idx as int),
            errors@.len() >= reported.len(),
            errors@.take(reported.len() as int) == reported,
            overload_scan(body@, idx as int, class_is_abstract, mixed_names@) == (OverloadScan {
                spans: spans@,
                name: callable_name_at(body@, name),
                errors: errors@.skip(reported.len() as int),
                implementations: implementations@,
            }),
        decreases n - idx,
    {
        let ghost before = overload_scan(body@, idx as int, class_is_abstract, mixed_names@);
        let ghost was = errors@;
        let (key, has_body, is_constructor, checked) = match &body[idx] {
            MemberNode::Constructor(c) => (&c.key, c.has_body, true, !class_is_abstract),
            MemberNode::Method(m) => (
                &m.key,
                m.has_body,
                false,
                !m.is_abstract && !named_in(&mixed_names, &m.key),
            ),
            _ => {
                idx += 1;
                continue ;
            },
        };
        if checked {
            let optional = key.is_key_optional();
            let same = match name {
                Some(k) => match &body[k] {
                    MemberNode::Constructor(c) => c.key.is_same_name_or_computation(key),
                    MemberNode::Method(m) => m.key.is_same_name_or_computation(key),
                    _ => false,
                },
                None => false,
            };
            if !has_body {
                let abandon = name.is_some() && !optional && !same;
                if abandon {
                    push_missing(&mut errors, &spans);
                }
                if optional {
                    name = None;
                    spans = Vec::new();
                } else {
                    if abandon || same {
                        spans = Vec::new();
                    }
                    spans.push((key.span, is_constructor));
                    name = Some(idx);
                }
            } else {
                if name.is_some() {
                    if same {
                        implementations.push(idx);
                    } else {
                        push_missing(&mut errors, &spans);
                    }
                }
                spans = Vec::new();
                name = None;
            }
            proof {
                let after = overload_check(before, *key, has_body, is_constructor, idx);
                assert(errors@.take(reported.len() as int) =~= reported);
                assert(errors@.skip(reported.len() as int) =~= after.errors);
            }
        }
        idx += 1;
    }
    let ghost scanned = errors@.skip(reported.len() as int);
    push_missing(&mut errors, &spans);
    proof {
        assert(errors@ =~= reported + scanned + missing_errors(spans@));
    }
    AmbientMethods { errors, implementations }
}

// ---------------------------------------------------------------------
// What holds of the search for duplicates
// ---------------------------------------------------------------------
/// What the search makes of two candidates with public names.
proof fn lemma_two_public(c: Seq<Candidate<PropName>>)
    requires
        c.len() == 2,
    ensures
        public_duplicates(c) == (match public_pair_error(c, 0, 1) {
            Some(e) => seq![e],
            None => Seq::<Diagnostic>::empty(),
        }) + (match public_pair_error(c, 1, 0) {
            Some(e) => seq![e],
            None => Seq::<Diagnostic>::empty(),
        }),
{
    let all = positions(2);
    let row = |i: int| all.filter_map(|j: int| public_pair_error(c, i, j));
    let rows = Seq::new(2, row);
    assert forall|i: int| 0 <= i < 2 implies #[trigger] rows[i] == (match public_pair_error(
        c,
        i,
        0,
    ) {
        Some(e) => seq![e],
        None => Seq::<Diagnostic>::empty(),
    }) + (match public_pair_error(c, i, 1) {
        Some(e) => seq![e],
        None => Seq::<Diagnostic>::empty(),
    }) by {
        let pair = |j: int| public_pair_error(c, i, j);
        all.lemma_filter_map_take_succ(pair, 0);
        all.lemma_filter_map_take_succ(pair, 1);
        assert(all.take(2) =~= all);
        assert(all.take(0).filter_map(pair) =~= Seq::<Diagnostic>::empty());
    }
    assert(rows =~= seq![rows[0]].push(rows[1]));
    seq![rows[0]].lemma_flatten_push(rows[1]);
    seq![rows[0]].lemma_flatten_one_element();
    assert(public_pair_error(c, 0, 0) is None);
    assert(public_pair_error(c, 1, 1) is None);
}

/// Two methods of one name are both reported.
///
/// A body of two methods with bodies, both static or both not, whose names
/// are the same and not computed, gives exactly two diagnostics: one at
/// the name of each.
pub proof fn two_methods_of_one_name_are_reported(
    first: crate::syntax::MethodNode,
    second: crate::syntax::MethodNode,
)
    requires
        first.kind == MethodKind::Method && first.has_body,
        second.kind == MethodKind::Method && second.has_body,
        first.is_static == second.is_static,
        first.key.same_name(second.key),
    ensures
        duplicate_member_errors(seq![MemberNode::Method(first), MemberNode::Method(second)])
            == seq![
            Diagnostic { code: ErrorCode::DuplicateNameWithoutName, span: first.key.span },
            Diagnostic { code: ErrorCode::DuplicateNameWithoutName, span: second.key.span },
        ],
{
    let body = seq![MemberNode::Method(first), MemberNode::Method(second)];
    let public = |m: MemberNode| public_candidate(m);
    let private = |m: MemberNode| private_candidate(m);
    body.lemma_filter_map_take_succ(public, 0);
    body.lemma_filter_map_take_succ(public, 1);
    body.lemma_filter_map_take_succ(private, 0);
    body.lemma_filter_map_take_succ(private, 1);
    assert(body.take(2) =~= body);
    assert(body.take(0).filter_map(public) =~= Seq::<Candidate<PropName>>::empty());
    assert(body.take(0).filter_map(private) =~= Seq::<Candidate<PrivateName>>::empty());
    let c = body.filter_map(public);
    assert(c =~= seq![public_candidate(body[0])->0, public_candidate(body[1])->0]);
    assert(body.filter_map(private) =~= Seq::<Candidate<PrivateName>>::empty());
    lemma_two_public(c);
    assert(private_duplicates(Seq::<Candidate<PrivateName>>::empty()) =~= Seq::<
        Diagnostic,
    >::empty());
    assert(duplicate_member_errors(body) =~= seq![
        Diagnostic { code: ErrorCode::DuplicateNameWithoutName, span: first.key.span },
        Diagnostic { code: ErrorCode::DuplicateNameWithoutName, span: second.key.span },
    ]);
}

/// A static and an instance property of one name are no duplicates.
///
/// A body of two properties of which one is static and the other is not
/// gives no diagnostic, whatever their names.
pub proof fn static_and_instance_property_do_not_clash(
    first: crate::syntax::ClassPropNode,
    second: crate::syntax::ClassPropNode,
)
    requires
        first.is_static != second.is_static,
    ensures
        duplicate_member_errors(seq![MemberNode::ClassProp(first), MemberNode::ClassProp(second)])
            == Seq::<Diagnostic>::empty(),
{
    let body = seq![MemberNode::ClassProp(first), MemberNode::ClassProp(second)];
    let public = |m: MemberNode| public_candidate(m);
    let private = |m: MemberNode| private_candidate(m);
    body.lemma_filter_map_take_succ(public, 0);
    body.lemma_filter_map_take_succ(public, 1);
    body.lemma_filter_map_take_succ(private, 0);
    body.lemma_filter_map_take_succ(private, 1);
    assert(body.take(2) =~= body);
    assert(body.take(0).filter_map(public) =~= Seq::<Candidate<PropName>>::empty());
    assert(body.take(0).filter_map(private) =~= Seq::<Candidate<PrivateName>>::empty());
    let c = body.filter_map(public);
    assert(c =~= seq![public_candidate(body[0])->0, public_candidate(body[1])->0]);
    assert(body.filter_map(private) =~= Seq::<Candidate<PrivateName>>::empty());
    lemma_two_public(c);
    assert(private_duplicates(Seq::<Candidate<PrivateName>>::empty()) =~= Seq::<
        Diagnostic,
    >::empty());
    assert(duplicate_member_errors(body) =~= Seq::<Diagnostic>::empty());
}

} // verus!
