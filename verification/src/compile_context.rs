//! Compile-time symbol bindings of an OTL script: the names that stand for
//! the input series, and the scalar parameters with the texts their values
//! come from (the declared default, then the assignments in the body).
//!
//! A scalar's value is the last of its assignment texts that reads as a
//! number, else its default text when that reads as a finite number, else
//! 14 for an `int` (and for a legacy `fn main` parameter) and 1 for a
//! `float`.

use crate::ast::OslParamType;
use crate::layers::string_views;
use crate::script::{
    extract_fn_main_body, extract_osl_shader_body, fn_main_body, lemma_next_nl, line_at,
    next_newline, next_nl, osl_parameter_list, shader_body, split_top_level_commas,
    strip_line_comments, strip_line_comments_text,
};
use crate::signature::{
    collect_osl_parameters, legacy_signature, opt_string_view, param_views, params_upto,
    parse_legacy_fn_main_signature, scalar_assignment, scalar_assignment_text, OslParamModel,
    OslParameter,
};
use crate::text::{chars_of, lower, lower_of, slice_of, string_of, trim, trim_of};
use vstd::prelude::*;

verus! {

/// One scalar parameter: its key (the lower-cased name), its declared type,
/// the default text of its declaration and the texts assigned to it in the
/// body, in order.
#[derive(Clone, Debug, PartialEq)]
pub struct ScalarBinding {
    pub name: String,
    pub ty: OslParamType,
    pub default_literal: Option<String>,
    pub assignments: Vec<String>,
}

#[verifier::ext_equal]
pub struct ScalarModel {
    pub name: Seq<char>,
    pub ty: OslParamType,
    pub default_literal: Option<Seq<char>>,
    pub assignments: Seq<Seq<char>>,
}

impl View for ScalarBinding {
    type V = ScalarModel;

    open spec fn view(&self) -> ScalarModel {
        ScalarModel {
            name: self.name@,
            ty: self.ty,
            default_literal: opt_string_view(self.default_literal),
            assignments: string_views(self.assignments@),
        }
    }
}

pub open spec fn scalar_views(bs: Seq<ScalarBinding>) -> Seq<ScalarModel> {
    Seq::new(bs.len(), |i: int| bs[i]@)
}

/// Compile-time symbol bindings for OSL shader scalar inputs and series streams.
#[derive(Clone, Debug, PartialEq)]
pub struct ScriptCompileContext {
    /// Keys that stand for the input series, each once.
    pub series_inputs: Vec<String>,
    /// Scalar parameters, one per key, in the order they were first declared.
    pub scalar_params: Vec<ScalarBinding>,
}

#[verifier::ext_equal]
pub struct ContextModel {
    pub series_inputs: Seq<Seq<char>>,
    pub scalar_params: Seq<ScalarModel>,
}

pub open spec fn context_of(series: Seq<String>, scalars: Seq<ScalarBinding>) -> ContextModel {
    ContextModel { series_inputs: string_views(series), scalar_params: scalar_views(scalars) }
}

impl View for ScriptCompileContext {
    type V = ContextModel;

    open spec fn view(&self) -> ContextModel {
        context_of(self.series_inputs@, self.scalar_params@)
    }
}

// ---------------------------------------------------------------------------
// The model
// ---------------------------------------------------------------------------

/// The names that always stand for the input series.
pub open spec fn canonical_series() -> Seq<Seq<char>> {
    seq!["data"@, "input"@, "close"@, "price"@, "x"@, "source"@, "source_stream"@]
}

pub open spec fn add_series(ss: Seq<Seq<char>>, k: Seq<char>) -> Seq<Seq<char>> {
    if ss.contains(k) {
        ss
    } else {
        ss.push(k)
    }
}

pub open spec fn scalar_index_from(bs: Seq<ScalarModel>, k: Seq<char>, i: int) -> Option<int>
    decreases bs.len() - i,
{
    if i < 0 || i >= bs.len() {
        None
    } else if bs[i].name == k {
        Some(i)
    } else {
        scalar_index_from(bs, k, i + 1)
    }
}

/// Where the scalar with key `k` stands, if it is bound.
pub open spec fn scalar_index(bs: Seq<ScalarModel>, k: Seq<char>) -> Option<int> {
    scalar_index_from(bs, k, 0)
}

/// A freshly declared scalar, with no assignment yet.
pub open spec fn declared_scalar(k: Seq<char>, ty: OslParamType, d: Option<Seq<char>>) -> ScalarModel {
    ScalarModel { name: k, ty, default_literal: d, assignments: Seq::empty() }
}

/// Declare `b`, replacing an earlier declaration of the same key.
pub open spec fn put_scalar(bs: Seq<ScalarModel>, b: ScalarModel) -> Seq<ScalarModel> {
    match scalar_index(bs, b.name) {
        Some(i) => bs.update(i, b),
        None => bs.push(b),
    }
}

/// Record the assignment of text `v` to the scalar `k`, if it is bound.
pub open spec fn assign_scalar(bs: Seq<ScalarModel>, k: Seq<char>, v: Seq<char>) -> Seq<ScalarModel> {
    match scalar_index(bs, k) {
        Some(i) => bs.update(
            i,
            ScalarModel {
                name: bs[i].name,
                ty: bs[i].ty,
                default_literal: bs[i].default_literal,
                assignments: bs[i].assignments.push(v),
            },
        ),
        None => bs,
    }
}

/// The shader parameters from `ps[i..]`: the first float input (unless
/// `primary` says it was met) is the series, later floats and ints are
/// scalars, strings and outputs bind nothing.
pub open spec fn osl_bindings(c: ContextModel, ps: Seq<OslParamModel>, i: int, primary: bool) -> ContextModel
    decreases ps.len() - i,
{
    if i < 0 || i >= ps.len() {
        c
    } else {
        let p = ps[i];
        let key = lower(p.name);
        if p.is_output {
            osl_bindings(c, ps, i + 1, primary)
        } else {
            match p.ty {
                OslParamType::String => osl_bindings(c, ps, i + 1, primary),
                OslParamType::Float if !primary => osl_bindings(
                    ContextModel {
                        series_inputs: add_series(c.series_inputs, key),
                        scalar_params: c.scalar_params,
                    },
                    ps,
                    i + 1,
                    true,
                ),
                _ => osl_bindings(
                    ContextModel {
                        series_inputs: c.series_inputs,
                        scalar_params: put_scalar(
                            c.scalar_params,
                            declared_scalar(key, p.ty, p.default_literal),
                        ),
                    },
                    ps,
                    i + 1,
                    primary,
                ),
            }
        }
    }
}

/// The parameters of a legacy `fn main` from `names[i..]`: the first is the
/// series, each later one a scalar unless already bound.
pub open spec fn legacy_bindings(c: ContextModel, names: Seq<Seq<char>>, i: int) -> ContextModel
    decreases names.len() - i,
{
    if i < 0 || i >= names.len() {
        c
    } else {
        let key = lower(names[i]);
        let next = if i == 0 {
            ContextModel {
                series_inputs: add_series(c.series_inputs, key),
                scalar_params: c.scalar_params,
            }
        } else if scalar_index(c.scalar_params, key) is Some {
            c
        } else {
            ContextModel {
                series_inputs: c.series_inputs,
                scalar_params: c.scalar_params.push(declared_scalar(key, OslParamType::Int, None)),
            }
        };
        legacy_bindings(next, names, i + 1)
    }
}

/// The plain scalar assignments on the body lines from index `i` on; one to
/// a series name or to an unbound name is ignored.
pub open spec fn body_bindings(c: ContextModel, body: Seq<char>, i: int) -> ContextModel
    decreases body.len() - i,
{
    if i < 0 || i >= body.len() {
        c
    } else {
        proof {
            lemma_next_nl(body, i);
        }
        let e = next_nl(body, i);
        let next = match scalar_assignment(trim(line_at(body, i))) {
            Some((n, v)) => {
                let key = lower(n);
                if c.series_inputs.contains(key) {
                    c
                } else {
                    ContextModel {
                        series_inputs: c.series_inputs,
                        scalar_params: assign_scalar(c.scalar_params, key, v),
                    }
                }
            },
            None => c,
        };
        if e < body.len() {
            body_bindings(next, body, e + 1)
        } else {
            next
        }
    }
}

/// The typed parameters of a (comment-stripped) shader header.
pub open spec fn declared_parameters(stripped: Seq<char>) -> Seq<OslParamModel> {
    match osl_parameter_list(stripped) {
        None => Seq::empty(),
        Some(pl) => params_upto(split_top_level_commas(pl), split_top_level_commas(pl).len() as int),
    }
}

/// The bindings of a script: from its shader parameters and shader body when
/// the header declares typed parameters, else from its legacy `fn main`
/// parameters and body.
pub open spec fn spec_context(source: Seq<char>) -> ContextModel {
    let stripped = strip_line_comments(source);
    let ps = declared_parameters(stripped);
    let c0 = ContextModel { series_inputs: canonical_series(), scalar_params: Seq::empty() };
    if ps.len() == 0 {
        let c1 = legacy_bindings(c0, legacy_signature(stripped).inputs, 0);
        match fn_main_body(stripped) {
            Some(b) => body_bindings(c1, b, 0),
            None => c1,
        }
    } else {
        let c1 = osl_bindings(c0, ps, 0, false);
        match shader_body(stripped) {
            Some(b) => body_bindings(c1, b, 0),
            None => c1,
        }
    }
}

/// Whether `k` is bound to the input series.
pub open spec fn is_series(c: ContextModel, k: Seq<char>) -> bool {
    c.series_inputs.contains(k)
}

/// Whether `k` is bound to a scalar parameter.
pub open spec fn is_scalar(c: ContextModel, k: Seq<char>) -> bool {
    scalar_index(c.scalar_params, k) is Some
}

// ---------------------------------------------------------------------------
// Building the bindings
// ---------------------------------------------------------------------------

pub fn lower_string(s: &String) -> (r: String)
    ensures
        r@ == lower(s@),
{
    string_of(&lower_of(&chars_of(s.as_str())))
}

fn copy_strings(v: &Vec<String>) -> (r: Vec<String>)
    ensures
        string_views(r@) == string_views(v@),
{
    let mut r: Vec<String> = Vec::new();
    let mut i: usize = 0;
    while i < v.len()
        invariant
            i <= v@.len(),
            string_views(r@) =~= string_views(v@).subrange(0, i as int),
        decreases v.len() - i,
    {
        let c = v[i].clone();
        let ghost before = string_views(r@);
        r.push(c);
        assert(string_views(r@) =~= before.push(v@[i as int]@));
        i = i + 1;
    }
    assert(string_views(v@).subrange(0, v@.len() as int) =~= string_views(v@));
    r
}

fn copy_binding(b: &ScalarBinding) -> (r: ScalarBinding)
    ensures
        r@ == b@,
{
    ScalarBinding {
        name: b.name.clone(),
        ty: b.ty,
        default_literal: match &b.default_literal {
            Some(d) => Some(d.clone()),
            None => None,
        },
        assignments: copy_strings(&b.assignments),
    }
}

/// Whether `ss` holds `k`.
pub fn contains_key(ss: &Vec<String>, k: &String) -> (r: bool)
    ensures
        r == string_views(ss@).contains(k@),
{
    let mut i: usize = 0;
    while i < ss.len()
        invariant
            i <= ss@.len(),
            forall|m: int| 0 <= m < i ==> #[trigger] string_views(ss@)[m] != k@,
        decreases ss.len() - i,
    {
        if ss[i] == *k {
            assert(string_views(ss@)[i as int] == k@);
            return true;
        }
        i = i + 1;
    }
    false
}

/// Where the scalar bound to `k` stands.
pub fn scalar_position(bs: &Vec<ScalarBinding>, k: &String) -> (r: Option<usize>)
    ensures
        match r {
            Some(i) => scalar_index(scalar_views(bs@), k@) == Some(i as int) && i < bs@.len(),
            None => scalar_index(scalar_views(bs@), k@) is None,
        },
{
    let mut i: usize = 0;
    while i < bs.len()
        invariant
            i <= bs@.len(),
            scalar_index(scalar_views(bs@), k@) == scalar_index_from(scalar_views(bs@), k@, i as int),
        decreases bs.len() - i,
    {
        if bs[i].name == *k {
            return Some(i);
        }
        i = i + 1;
    }
    None
}

fn add_series_exec(ss: &mut Vec<String>, k: String)
    ensures
        string_views(final(ss)@) == add_series(string_views(old(ss)@), k@),
{
    if !contains_key(ss, &k) {
        let ghost before = string_views(ss@);
        ss.push(k);
        assert(string_views(ss@) =~= before.push(k@));
    }
}

fn put_scalar_exec(bs: &mut Vec<ScalarBinding>, b: ScalarBinding)
    ensures
        scalar_views(final(bs)@) == put_scalar(scalar_views(old(bs)@), b@),
{
    let ghost before = scalar_views(bs@);
    match scalar_position(bs, &b.name) {
        Some(i) => {
            bs.set(i, b);
            assert(scalar_views(bs@) =~= before.update(i as int, b@));
        },
        None => {
            bs.push(b);
            assert(scalar_views(bs@) =~= before.push(b@));
        },
    }
}

fn assign_scalar_exec(bs: &mut Vec<ScalarBinding>, k: &String, v: String)
    ensures
        scalar_views(final(bs)@) == assign_scalar(scalar_views(old(bs)@), k@, v@),
{
    let ghost before = scalar_views(bs@);
    match scalar_position(bs, k) {
        Some(i) => {
            let mut b = copy_binding(&bs[i]);
            let ghost ba = b.assignments@;
            b.assignments.push(v);
            assert(string_views(b.assignments@) =~= string_views(ba).push(v@));
            bs.set(i, b);
            assert(scalar_views(bs@) =~= assign_scalar(before, k@, v@));
        },
        None => {},
    }
}

fn canonical_series_vec() -> (r: Vec<String>)
    ensures
        string_views(r@) == canonical_series(),
{
    let mut r: Vec<String> = Vec::new();
    r.push("data".to_owned());
    r.push("input".to_owned());
    r.push("close".to_owned());
    r.push("price".to_owned());
    r.push("x".to_owned());
    r.push("source".to_owned());
    r.push("source_stream".to_owned());
    assert(string_views(r@) =~= canonical_series());
    r
}

fn apply_osl_parameters(series: &mut Vec<String>, scalars: &mut Vec<ScalarBinding>, ps: &Vec<OslParameter>)
    ensures
        context_of(final(series)@, final(scalars)@) == osl_bindings(
            context_of(old(series)@, old(scalars)@),
            param_views(ps@),
            0,
            false,
        ),
{
    let ghost c0 = context_of(series@, scalars@);
    let ghost pv = param_views(ps@);
    let mut primary = false;
    let mut i: usize = 0;
    while i < ps.len()
        invariant
            i <= ps@.len(),
            pv == param_views(ps@),
            osl_bindings(c0, pv, 0, false) == osl_bindings(
                context_of(series@, scalars@),
                pv,
                i as int,
                primary,
            ),
        decreases ps.len() - i,
    {
        let p = &ps[i];
        assert(pv[i as int] == p@);
        if !p.is_output {
            let key = lower_string(&p.name);
            match p.ty {
                OslParamType::String => {},
                OslParamType::Float if !primary => {
                    add_series_exec(series, key);
                    primary = true;
                },
                _ => {
                    let b = ScalarBinding {
                        name: key,
                        ty: p.ty,
                        default_literal: match &p.default_literal {
                            Some(d) => Some(d.clone()),
                            None => None,
                        },
                        assignments: Vec::new(),
                    };
                    assert(string_views(b.assignments@) =~= Seq::<Seq<char>>::empty());
                    put_scalar_exec(scalars, b);
                },
            }
        }
        i = i + 1;
    }
}

fn apply_legacy_inputs(series: &mut Vec<String>, scalars: &mut Vec<ScalarBinding>, names: &Vec<String>)
    ensures
        context_of(final(series)@, final(scalars)@) == legacy_bindings(
            context_of(old(series)@, old(scalars)@),
            string_views(names@),
            0,
        ),
{
    let ghost c0 = context_of(series@, scalars@);
    let ghost nv = string_views(names@);
    let mut i: usize = 0;
    while i < names.len()
        invariant
            i <= names@.len(),
            nv == string_views(names@),
            legacy_bindings(c0, nv, 0) == legacy_bindings(context_of(series@, scalars@), nv, i as int),
        decreases names.len() - i,
    {
        let key = lower_string(&names[i]);
        assert(nv[i as int] == names@[i as int]@);
        if i == 0 {
            add_series_exec(series, key);
        } else {
            match scalar_position(scalars, &key) {
                Some(_) => {},
                None => {
                    let ghost before = scalar_views(scalars@);
                    let b = ScalarBinding {
                        name: key,
                        ty: OslParamType::Int,
                        default_literal: None,
                        assignments: Vec::new(),
                    };
                    assert(string_views(b.assignments@) =~= Seq::<Seq<char>>::empty());
                    scalars.push(b);
                    assert(scalar_views(scalars@) =~= before.push(b@));
                },
            }
        }
        i = i + 1;
    }
}

fn apply_body_assignments(series: &Vec<String>, scalars: &mut Vec<ScalarBinding>, body: &str)
    ensures
        context_of(series@, final(scalars)@) == body_bindings(
            context_of(series@, old(scalars)@),
            body@,
            0,
        ),
{
    let ghost c0 = context_of(series@, scalars@);
    let s = chars_of(body);
    let mut i: usize = 0;
    while i < s.len()
        invariant
            i <= s@.len(),
            s@ == body@,
            body_bindings(c0, s@, 0) == body_bindings(context_of(series@, scalars@), s@, i as int),
        decreases s.len() - i,
    {
        let e = next_newline(&s, i);
        let mut line = slice_of(&s, i, e);
        if e < s.len() && line.len() > 0 && line[line.len() - 1] == '\r' {
            let ghost b = line@;
            line.pop();
            assert(line@ =~= b.drop_last());
        }
        assert(line@ == line_at(s@, i as int));
        let t = string_of(&trim_of(&line));
        match scalar_assignment_text(t.as_str()) {
            Some((n, v)) => {
                let key = lower_string(&n);
                if !contains_key(series, &key) {
                    assign_scalar_exec(scalars, &key, v);
                }
            },
            None => {},
        }
        if e < s.len() {
            i = e + 1;
        } else {
            i = s.len();
        }
    }
}

/// The empty context: no name is bound.
pub open spec fn empty_context() -> ContextModel {
    ContextModel { series_inputs: Seq::empty(), scalar_params: Seq::empty() }
}

impl Default for ScriptCompileContext {
    fn default() -> (r: Self)
        ensures
            r@ == empty_context(),
    {
        let r = ScriptCompileContext { series_inputs: Vec::new(), scalar_params: Vec::new() };
        assert(r@ =~= empty_context());
        r
    }
}

impl ScriptCompileContext {
    /// The bindings that a script's header and body declare.
    pub fn from_script_source(source: &str) -> (r: Self)
        ensures
            r@ == spec_context(source@),
    {
        let mut series = canonical_series_vec();
        let mut scalars: Vec<ScalarBinding> = Vec::new();
        let ghost c0 = context_of(series@, scalars@);
        assert(c0 =~= ContextModel { series_inputs: canonical_series(), scalar_params: Seq::empty() });
        let stripped = strip_line_comments_text(source);
        let parameters = collect_osl_parameters(stripped.as_str());
        assert(param_views(parameters@) == declared_parameters(stripped@));
        if parameters.len() == 0 {
            let legacy = parse_legacy_fn_main_signature(stripped.as_str());
            apply_legacy_inputs(&mut series, &mut scalars, &legacy.inputs);
            match extract_fn_main_body(stripped.as_str()) {
                Some(body) => apply_body_assignments(&series, &mut scalars, body.as_str()),
                None => {},
            }
        } else {
            apply_osl_parameters(&mut series, &mut scalars, &parameters);
            match extract_osl_shader_body(stripped.as_str()) {
                Some(body) => apply_body_assignments(&series, &mut scalars, body.as_str()),
                None => {},
            }
        }
        ScriptCompileContext { series_inputs: series, scalar_params: scalars }
    }

    /// Whether `key` stands for the input series.
    pub fn is_series_input(&self, key: &String) -> (r: bool)
        ensures
            r == is_series(self@, key@),
    {
        contains_key(&self.series_inputs, key)
    }

    /// The scalar parameter bound to `key`, if any.
    pub fn scalar(&self, key: &String) -> (r: Option<&ScalarBinding>)
        ensures
            match r {
                Some(b) => scalar_index(self@.scalar_params, key@) matches Some(i) && b@
                    == self@.scalar_params[i],
                None => !is_scalar(self@, key@),
            },
    {
        match scalar_position(&self.scalar_params, key) {
            Some(i) => Some(&self.scalar_params[i]),
            None => None,
        }
    }
}

} // verus!
