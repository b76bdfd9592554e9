//! Script signatures: the inputs, output ports and typed parameters an OSL
//! shader header or a legacy `fn main(...)` declares.
//!
//! A parameter's default value is kept as the literal text written after its
//! `=`; turning it into a number is left to the caller.

use crate::ast::OslParamType;
use crate::layers::string_views;
use crate::script::{
    all_ident, all_ident_of, balanced_delimiter_offset, balanced_offset, before_eq, before_eq_of, fn_main_params,
    fn_main_params_of, join_space, join_space_of, kw_main, kw_void, v_main, v_void,
    kw_float, kw_fn_main, kw_int, kw_output, kw_string, lemma_next_nl, line_at, next_newline,
    next_nl, osl_parameter_list, osl_parameter_list_of, split_top_level_commas, strip_line_comments,
    strip_line_comments_of,
    split_top_level_commas_of, tokens, tokens_of, v_fn_main, v_output, views,
};
use crate::text::{
    append_chars, skip_ws, skip_ws_from, chars_of, find, find_ch, find_first, lemma_find_from_props, lower, lower_of, seq_eq, slice_of,
    starts_with, starts_with_chars, string_of, strip_trailing, strip_trailing_of, trim, trim_of,
};
use vstd::prelude::*;

verus! {

#[derive(Clone, Debug, PartialEq)]
pub struct OslParameter {
    pub name: String,
    pub ty: OslParamType,
    pub is_output: bool,
    /// The text after the parameter's `=` (trimmed, trailing `;` and `,`
    /// removed), if it has one.
    pub default_literal: Option<String>,
}

#[derive(Clone, Debug, Default, PartialEq)]
pub struct ScriptSignature {
    pub inputs: Vec<String>,
    pub outputs: Vec<String>,
    pub parameters: Vec<OslParameter>,
}

pub struct OslParamModel {
    pub name: Seq<char>,
    pub ty: OslParamType,
    pub is_output: bool,
    pub default_literal: Option<Seq<char>>,
}

pub struct SignatureModel {
    pub inputs: Seq<Seq<char>>,
    pub outputs: Seq<Seq<char>>,
    pub parameters: Seq<OslParamModel>,
}

pub open spec fn opt_string_view(o: Option<String>) -> Option<Seq<char>> {
    match o {
        Some(s) => Some(s@),
        None => None,
    }
}

impl View for OslParameter {
    type V = OslParamModel;

    open spec fn view(&self) -> OslParamModel {
        OslParamModel {
            name: self.name@,
            ty: self.ty,
            is_output: self.is_output,
            default_literal: opt_string_view(self.default_literal),
        }
    }
}

pub open spec fn param_views(ps: Seq<OslParameter>) -> Seq<OslParamModel> {
    Seq::new(ps.len(), |i: int| ps[i]@)
}

impl View for ScriptSignature {
    type V = SignatureModel;

    open spec fn view(&self) -> SignatureModel {
        SignatureModel {
            inputs: string_views(self.inputs@),
            outputs: string_views(self.outputs@),
            parameters: param_views(self.parameters@),
        }
    }
}

// ---------------------------------------------------------------------------
// One typed parameter
// ---------------------------------------------------------------------------

pub open spec fn osl_type_of(t: Seq<char>) -> Option<OslParamType> {
    let lo = lower(t);
    if lo == kw_float() {
        Some(OslParamType::Float)
    } else if lo == kw_int() {
        Some(OslParamType::Int)
    } else if lo == kw_string() {
        Some(OslParamType::String)
    } else {
        None
    }
}

/// The default text after the first `=` of `rest`, if any.
pub open spec fn default_literal_of(rest: Seq<char>) -> Option<Seq<char>> {
    match find(rest, seq!['=']) {
        Some(k) => Some(
            strip_trailing(strip_trailing(trim(rest.subrange(k + 1, rest.len() as int)), ';'), ','),
        ),
        None => None,
    }
}

/// One parameter such as `int lookback = 14` or `output float band`.
pub open spec fn osl_param_full(param: Seq<char>) -> Option<OslParamModel> {
    let seg0 = strip_trailing(trim(param), ';');
    if seg0.len() == 0 {
        None
    } else {
        let is_out = starts_with(lower(seg0), kw_output());
        let seg = if is_out {
            trim(seg0.subrange(6, seg0.len() as int))
        } else {
            seg0
        };
        let ts = tokens(seg);
        if ts.len() < 2 {
            None
        } else {
            match osl_type_of(ts[0]) {
                None => None,
                Some(ty) => {
                    let rest = join_space(ts.subrange(1, ts.len() as int));
                    let name = strip_trailing(trim(before_eq(rest)), ',');
                    if name.len() == 0 {
                        None
                    } else {
                        Some(
                            OslParamModel {
                                name,
                                ty,
                                is_output: is_out,
                                default_literal: default_literal_of(rest),
                            },
                        )
                    }
                },
            }
        }
    }
}

fn osl_type_of_exec(t: &[char]) -> (r: Option<OslParamType>)
    ensures
        r == osl_type_of(t@),
{
    let lo = lower_of(t);
    if seq_eq(&lo, &chars_of("float")) {
        proof {
            reveal_strlit("float");
            assert("float"@ =~= kw_float());
        }
        Some(OslParamType::Float)
    } else if seq_eq(&lo, &chars_of("int")) {
        proof {
            reveal_strlit("int");
            reveal_strlit("float");
            assert("int"@ =~= kw_int());
            assert("float"@ =~= kw_float());
        }
        Some(OslParamType::Int)
    } else if seq_eq(&lo, &chars_of("string")) {
        proof {
            reveal_strlit("string");
            reveal_strlit("int");
            reveal_strlit("float");
            assert("string"@ =~= kw_string());
            assert("int"@ =~= kw_int());
            assert("float"@ =~= kw_float());
        }
        Some(OslParamType::String)
    } else {
        proof {
            reveal_strlit("string");
            reveal_strlit("int");
            reveal_strlit("float");
            assert("string"@ =~= kw_string());
            assert("int"@ =~= kw_int());
            assert("float"@ =~= kw_float());
        }
        None
    }
}

fn default_literal_exec(rest: &[char]) -> (r: Option<Vec<char>>)
    ensures
        r matches Some(v) ==> default_literal_of(rest@) == Some(v@),
        r is None ==> default_literal_of(rest@) is None,
{
    match find_ch(rest, '=') {
        Some(k) => {
            proof {
                lemma_find_from_props(rest@, seq!['='], 0);
            }
            assert(k < rest.len());
            let after = trim_of(&slice_of(rest, k + 1, rest.len()));
            let a = strip_trailing_of(&after, ';');
            Some(strip_trailing_of(&a, ','))
        },
        None => None,
    }
}

fn osl_param_full_exec(param: &[char]) -> (r: Option<OslParameter>)
    ensures
        r matches Some(p) ==> osl_param_full(param@) == Some(p@),
        r is None ==> osl_param_full(param@) is None,
{
    let t = trim_of(param);
    let seg0 = strip_trailing_of(&t, ';');
    if seg0.len() == 0 {
        return None;
    }
    let lo = lower_of(&seg0);
    let is_out = starts_with_chars(&lo, &v_output());
    let seg = if is_out {
        trim_of(&slice_of(&seg0, 6, seg0.len()))
    } else {
        seg0
    };
    let ts = tokens_of(&seg);
    if ts.len() < 2 {
        return None;
    }
    let ty = match osl_type_of_exec(&ts[0]) {
        Some(ty) => ty,
        None => return None,
    };
    let rest = join_space_of(&ts, 1);
    let head = trim_of(&before_eq_of(&rest));
    let name = strip_trailing_of(&head, ',');
    if name.len() == 0 {
        return None;
    }
    let default_literal = match default_literal_exec(&rest) {
        Some(d) => Some(string_of(&d)),
        None => None,
    };
    Some(OslParameter { name: string_of(&name), ty, is_output: is_out, default_literal })
}

// ---------------------------------------------------------------------------
// Shader headers
// ---------------------------------------------------------------------------

/// The parameters among `pieces[..k]` that parse, in order.
pub open spec fn params_upto(pieces: Seq<Seq<char>>, k: int) -> Seq<OslParamModel>
    decreases k,
{
    if k <= 0 || k > pieces.len() {
        Seq::empty()
    } else {
        let prev = params_upto(pieces, k - 1);
        match osl_param_full(pieces[k - 1]) {
            Some(p) => prev.push(p),
            None => prev,
        }
    }
}

/// Names of the parameters with the given direction, in order.
pub open spec fn names_with(ps: Seq<OslParamModel>, output: bool) -> Seq<Seq<char>>
    decreases ps.len(),
{
    if ps.len() == 0 {
        Seq::empty()
    } else {
        let prev = names_with(ps.drop_last(), output);
        if ps.last().is_output == output {
            prev.push(ps.last().name)
        } else {
            prev
        }
    }
}

/// The signature of an OSL shader header, when it declares any port.
pub open spec fn shader_signature(s: Seq<char>) -> Option<SignatureModel> {
    match osl_parameter_list(s) {
        None => None,
        Some(pl) => {
            let pieces = split_top_level_commas(pl);
            let ps = params_upto(pieces, pieces.len() as int);
            let inputs = names_with(ps, false);
            let outputs = names_with(ps, true);
            if inputs.len() == 0 && outputs.len() == 0 {
                None
            } else {
                Some(SignatureModel { inputs, outputs, parameters: ps })
            }
        },
    }
}

fn shader_signature_exec(s: &[char]) -> (r: Option<ScriptSignature>)
    ensures
        r matches Some(sig) ==> shader_signature(s@) == Some(sig@),
        r is None ==> shader_signature(s@) is None,
{
    let pl = match osl_parameter_list_of(s) {
        Some(pl) => pl,
        None => return None,
    };
    let pieces = split_top_level_commas_of(&pl);
    let mut sig = ScriptSignature { inputs: Vec::new(), outputs: Vec::new(), parameters: Vec::new() };
    let mut i: usize = 0;
    while i < pieces.len()
        invariant
            i <= pieces@.len(),
            param_views(sig.parameters@) == params_upto(views(pieces@), i as int),
            string_views(sig.inputs@) == names_with(param_views(sig.parameters@), false),
            string_views(sig.outputs@) == names_with(param_views(sig.parameters@), true),
        decreases pieces.len() - i,
    {
        let ghost before = sig@;
        match osl_param_full_exec(&pieces[i]) {
            Some(p) => {
                let name = p.name.clone();
                if p.is_output {
                    sig.outputs.push(name);
                } else {
                    sig.inputs.push(name);
                }
                sig.parameters.push(p);
                proof {
                    let ps = param_views(sig.parameters@);
                    assert(ps =~= before.parameters.push(p@));
                    assert(ps.drop_last() =~= before.parameters);
                    assert(string_views(sig.inputs@) =~= names_with(ps, false));
                    assert(string_views(sig.outputs@) =~= names_with(ps, true));
                }
            },
            None => {},
        }
        i = i + 1;
    }
    if sig.inputs.len() == 0 && sig.outputs.len() == 0 {
        None
    } else {
        Some(sig)
    }
}

// ---------------------------------------------------------------------------
// Legacy `fn main(...)` headers
// ---------------------------------------------------------------------------

/// The identifier a `fn main` parameter such as `lookback = 14` or
/// `x: Series` declares.
pub open spec fn param_ident(param: Seq<char>) -> Option<Seq<char>> {
    let t = trim(param);
    if t.len() == 0 {
        None
    } else {
        let h1 = trim(before_eq(t));
        let h2 = trim(
            match find(h1, seq![':']) {
                Some(k) => h1.subrange(0, k),
                None => h1,
            },
        );
        let ts = tokens(h2);
        if ts.len() == 0 {
            None
        } else if trim(ts[0]).len() == 0 {
            None
        } else {
            Some(trim(ts[0]))
        }
    }
}

/// The identifiers of `pieces[..k]`, in order.
pub open spec fn idents_upto(pieces: Seq<Seq<char>>, k: int) -> Seq<Seq<char>>
    decreases k,
{
    if k <= 0 || k > pieces.len() {
        Seq::empty()
    } else {
        let prev = idents_upto(pieces, k - 1);
        match param_ident(pieces[k - 1]) {
            Some(n) => prev.push(n),
            None => prev,
        }
    }
}

/// After `fn main` at the start of `af`: the text inside its parentheses and
/// the offset (in `af`) of the `{` opening the body.
pub open spec fn fn_main_header(af: Seq<char>) -> Option<(Seq<char>, int)> {
    match find(af, seq!['(']) {
        None => None,
        Some(op) => fn_main_header_from(af, op),
    }
}

/// `fn_main_header` once the `(` at `op` is found.
pub open spec fn fn_main_header_from(af: Seq<char>, op: int) -> Option<(Seq<char>, int)> {
    let close = balanced_delimiter_offset(af.subrange(op, af.len() as int), '(', ')');
    match close {
        None => None,
        Some(cp) => {
            let ap = af.subrange(op + cp + 1, af.len() as int);
            match find(ap, seq!['{']) {
                None => None,
                Some(ob) => Some((af.subrange(op + 1, op + cp), op + cp + 1 + ob)),
            }
        },
    }
}

/// Parameter text of `fn main(...)` and the index of the `{` opening its body.
pub open spec fn locate_fn_main(s: Seq<char>) -> Option<(Seq<char>, int)> {
    match find(lower(s), kw_fn_main()) {
        None => None,
        Some(fs) => match fn_main_header(s.subrange(fs, s.len() as int)) {
            None => None,
            Some((pl, off)) => Some((pl, fs + off)),
        },
    }
}

/// `output` declarations among the lines of `s` from index `i` on.
pub open spec fn header_outputs_from(s: Seq<char>, i: int) -> Seq<Seq<char>>
    decreases s.len() - i,
{
    if i < 0 || i >= s.len() {
        Seq::empty()
    } else {
        proof {
            lemma_next_nl(s, i);
        }
        let e = next_nl(s, i);
        let t = trim(line_at(s, i));
        let head: Seq<Seq<char>> = if starts_with(lower(t), "output "@) {
            match osl_param_full(t) {
                Some(p) => if p.is_output {
                    seq![p.name]
                } else {
                    Seq::empty()
                },
                None => Seq::empty(),
            }
        } else {
            Seq::empty()
        };
        head + (if e < s.len() {
            header_outputs_from(s, e + 1)
        } else {
            Seq::empty()
        })
    }
}

pub open spec fn legacy_signature(s: Seq<char>) -> SignatureModel {
    match locate_fn_main(s) {
        None => SignatureModel {
            inputs: Seq::empty(),
            outputs: Seq::empty(),
            parameters: Seq::empty(),
        },
        Some((pl, header_end)) => {
            let pieces = split_top_level_commas(pl);
            SignatureModel {
                inputs: idents_upto(pieces, pieces.len() as int),
                outputs: header_outputs_from(s.subrange(0, header_end), 0),
                parameters: Seq::empty(),
            }
        },
    }
}

/// The shader header's signature when it declares a port, else the legacy
/// `fn main` one.
pub open spec fn spec_script_signature(s: Seq<char>) -> SignatureModel {
    match shader_signature(s) {
        Some(sig) => sig,
        None => legacy_signature(s),
    }
}

fn param_ident_exec(param: &[char]) -> (r: Option<Vec<char>>)
    ensures
        r matches Some(v) ==> param_ident(param@) == Some(v@),
        r is None ==> param_ident(param@) is None,
{
    let t = trim_of(param);
    if t.len() == 0 {
        return None;
    }
    let h1 = trim_of(&before_eq_of(&t));
    let h1c = match find_ch(&h1, ':') {
        Some(k) => {
            proof {
                lemma_find_from_props(h1@, seq![':'], 0);
            }
            slice_of(&h1, 0, k)
        },
        None => {
            let c = slice_of(&h1, 0, h1.len());
            assert(c@ =~= h1@);
            c
        },
    };
    let h2 = trim_of(&h1c);
    let ts = tokens_of(&h2);
    if ts.len() == 0 {
        return None;
    }
    let id = trim_of(&ts[0]);
    if id.len() == 0 {
        None
    } else {
        Some(id)
    }
}

fn locate_fn_main_exec(s: &[char]) -> (r: Option<(Vec<char>, usize)>)
    ensures
        r matches Some((pl, he)) ==> locate_fn_main(s@) == Some((pl@, he as int)) && he <= s@.len(),
        r is None ==> locate_fn_main(s@) is None,
{
    let lo = lower_of(s);
    let fs = match find_first(&lo, &v_fn_main()) {
        Some(k) => k,
        None => return None,
    };
    proof {
        lemma_find_from_props(lo@, kw_fn_main(), 0);
    }
    let af = slice_of(s, fs, s.len());
    let op = match find_ch(&af, '(') {
        Some(k) => k,
        None => return None,
    };
    proof {
        lemma_find_from_props(af@, seq!['('], 0);
    }
    let tail = slice_of(&af, op, af.len());
    let cp = match balanced_offset(&tail, '(', ')') {
        Some(k) => k,
        None => return None,
    };
    let ap = slice_of(&af, op + cp + 1, af.len());
    let ob = match find_ch(&ap, '{') {
        Some(k) => k,
        None => return None,
    };
    proof {
        lemma_find_from_props(ap@, seq!['{'], 0);
    }
    let pl = slice_of(&af, op + 1, op + cp);
    Some((pl, fs + op + cp + 1 + ob))
}

fn header_outputs_exec(s: &[char]) -> (out: Vec<String>)
    ensures
        string_views(out@) == header_outputs_from(s@, 0),
{
    let mut out: Vec<String> = Vec::new();
    let mut i: usize = 0;
    let out_kw = chars_of("output ");
    while i < s.len()
        invariant
            i <= s@.len(),
            out_kw@ == "output "@,
            header_outputs_from(s@, 0) == string_views(out@) + header_outputs_from(s@, i as int),
        decreases s@.len() - i,
    {
        let e = next_newline(s, i);
        let mut line = slice_of(s, i, e);
        if e < s.len() && line.len() > 0 && line[line.len() - 1] == '\r' {
            let ghost b = line@;
            line.pop();
            assert(line@ =~= b.drop_last());
        }
        assert(line@ == line_at(s@, i as int));
        let t = trim_of(&line);
        let ghost before = out@;
        let ghost head: Seq<Seq<char>> = if starts_with(lower(t@), "output "@) {
            match osl_param_full(t@) {
                Some(p) => if p.is_output {
                    seq![p.name]
                } else {
                    Seq::empty()
                },
                None => Seq::empty(),
            }
        } else {
            Seq::empty()
        };
        if starts_with_chars(&lower_of(&t), &out_kw) {
            match osl_param_full_exec(&t) {
                Some(p) => {
                    if p.is_output {
                        out.push(p.name);
                    }
                },
                None => {},
            }
        }
        assert(string_views(out@) =~= string_views(before) + head);
        let ghost old_i = i;
        if e < s.len() {
            i = e + 1;
        } else {
            i = s.len();
        }
        assert(header_outputs_from(s@, old_i as int) == head + header_outputs_from(s@, i as int));
        assert(string_views(before) + (head + header_outputs_from(s@, i as int)) =~= string_views(
            out@,
        ) + header_outputs_from(s@, i as int));
    }
    assert(string_views(out@) + header_outputs_from(s@, i as int) =~= string_views(out@));
    out
}

fn legacy_signature_exec(s: &[char]) -> (r: ScriptSignature)
    ensures
        r@ == legacy_signature(s@),
{
    let mut sig = ScriptSignature { inputs: Vec::new(), outputs: Vec::new(), parameters: Vec::new() };
    let (pl, header_end) = match locate_fn_main_exec(s) {
        Some(x) => x,
        None => {
            assert(sig@.inputs =~= Seq::<Seq<char>>::empty());
            assert(sig@.outputs =~= Seq::<Seq<char>>::empty());
            assert(sig@.parameters =~= Seq::<OslParamModel>::empty());
            return sig;
        },
    };
    let pieces = split_top_level_commas_of(&pl);
    let mut i: usize = 0;
    while i < pieces.len()
        invariant
            i <= pieces@.len(),
            string_views(sig.inputs@) == idents_upto(views(pieces@), i as int),
            sig.outputs@.len() == 0,
            sig.parameters@.len() == 0,
        decreases pieces.len() - i,
    {
        let ghost before = sig.inputs@;
        match param_ident_exec(&pieces[i]) {
            Some(n) => {
                sig.inputs.push(string_of(&n));
                assert(string_views(sig.inputs@) =~= string_views(before).push(n@));
            },
            None => {},
        }
        i = i + 1;
    }
    let head = slice_of(s, 0, header_end);
    sig.outputs = header_outputs_exec(&head);
    assert(sig@.parameters =~= Seq::<OslParamModel>::empty());
    sig
}

/// Typed OSL / C-style shader parameters and `output` ports, or the
/// parameters of a legacy `fn main(...)`.
pub fn parse_script_signature(source: &str) -> (r: ScriptSignature)
    ensures
        r@ == spec_script_signature(source@),
{
    let s = chars_of(source);
    match shader_signature_exec(&s) {
        Some(sig) => sig,
        None => legacy_signature_exec(&s),
    }
}


// ---------------------------------------------------------------------------
// Scalar uniforms
// ---------------------------------------------------------------------------

/// The parameters of the comment-stripped shader header.
pub open spec fn header_parameters(s: Seq<char>) -> Seq<OslParamModel> {
    match osl_parameter_list(strip_line_comments(s)) {
        None => Seq::empty(),
        Some(pl) => {
            let pieces = split_top_level_commas(pl);
            params_upto(pieces, pieces.len() as int)
        },
    }
}

/// Non-output scalars from `ps[i..]`: the first float input (the primary
/// series, unless `seen` says it was met already) and string inputs are
/// left out.
pub open spec fn uniforms_from(ps: Seq<OslParamModel>, i: int, seen: bool) -> Seq<OslParamModel>
    decreases ps.len() - i,
{
    if i < 0 || i >= ps.len() {
        Seq::empty()
    } else {
        let p = ps[i];
        if p.is_output {
            uniforms_from(ps, i + 1, seen)
        } else {
            match p.ty {
                OslParamType::Float => if !seen {
                    uniforms_from(ps, i + 1, true)
                } else {
                    seq![p] + uniforms_from(ps, i + 1, seen)
                },
                OslParamType::String => uniforms_from(ps, i + 1, seen),
                OslParamType::Int => seq![p] + uniforms_from(ps, i + 1, seen),
            }
        }
    }
}

fn copy_param(p: &OslParameter) -> (r: OslParameter)
    ensures
        r@ == p@,
{
    OslParameter {
        name: p.name.clone(),
        ty: p.ty,
        is_output: p.is_output,
        default_literal: match &p.default_literal {
            Some(d) => Some(d.clone()),
            None => None,
        },
    }
}

fn header_parameters_exec(s: &[char]) -> (r: Vec<OslParameter>)
    ensures
        param_views(r@) == header_parameters(s@),
{
    let stripped = strip_line_comments_of(s);
    let pl = match osl_parameter_list_of(&stripped) {
        Some(pl) => pl,
        None => {
            let r: Vec<OslParameter> = Vec::new();
            assert(param_views(r@) =~= Seq::<OslParamModel>::empty());
            return r;
        },
    };
    let pieces = split_top_level_commas_of(&pl);
    let mut out: Vec<OslParameter> = Vec::new();
    let mut i: usize = 0;
    assert(param_views(out@) =~= Seq::<OslParamModel>::empty());
    while i < pieces.len()
        invariant
            i <= pieces@.len(),
            param_views(out@) == params_upto(views(pieces@), i as int),
        decreases pieces.len() - i,
    {
        let ghost before = param_views(out@);
        match osl_param_full_exec(&pieces[i]) {
            Some(p) => {
                out.push(p);
                assert(param_views(out@) =~= before.push(p@));
            },
            None => {},
        }
        i = i + 1;
    }
    out
}

/// Non-output scalar uniforms from an OSL signature (excludes the primary
/// float series input and string inputs).
pub fn parse_script_scalar_uniforms(source: &str) -> (r: Vec<OslParameter>)
    ensures
        param_views(r@) == uniforms_from(header_parameters(source@), 0, false),
{
    let params = header_parameters_exec(&chars_of(source));
    let ghost ps = param_views(params@);
    let mut out: Vec<OslParameter> = Vec::new();
    let mut seen = false;
    let mut i: usize = 0;
    while i < params.len()
        invariant
            i <= params@.len(),
            ps == param_views(params@),
            uniforms_from(ps, 0, false) == param_views(out@) + uniforms_from(ps, i as int, seen),
        decreases params.len() - i,
    {
        let p = &params[i];
        let ghost before = param_views(out@);
        assert(ps[i as int] == p@);
        if !p.is_output {
            match p.ty {
                OslParamType::Float => {
                    if !seen {
                        seen = true;
                    } else {
                        out.push(copy_param(p));
                    }
                },
                OslParamType::String => {},
                OslParamType::Int => {
                    out.push(copy_param(p));
                },
            }
        }
        proof {
            if param_views(out@).len() > before.len() {
                assert(param_views(out@) =~= before.push(p@));
                assert(before + (seq![p@] + uniforms_from(ps, i + 1, seen)) =~= param_views(out@)
                    + uniforms_from(ps, i + 1, seen));
            }
        }
        i = i + 1;
    }
    assert(param_views(out@) + Seq::<OslParamModel>::empty() =~= param_views(out@));
    out
}


// ---------------------------------------------------------------------------
// Setting a uniform's default
// ---------------------------------------------------------------------------

/// The texts a real default value is written as, by parameter type (an
/// integer slot takes the rounded value).
#[derive(Clone, Debug, PartialEq)]
pub struct ScalarDefaultText {
    pub int_text: String,
    pub float_text: String,
    pub string_text: String,
}

pub struct DefaultTextModel {
    pub int_text: Seq<char>,
    pub float_text: Seq<char>,
    pub string_text: Seq<char>,
}

impl View for ScalarDefaultText {
    type V = DefaultTextModel;

    open spec fn view(&self) -> DefaultTextModel {
        DefaultTextModel {
            int_text: self.int_text@,
            float_text: self.float_text@,
            string_text: self.string_text@,
        }
    }
}

/// `[start, end)` of the text inside the `(` found at or after `base`.
pub open spec fn paren_span(s: Seq<char>, base: int) -> Option<(int, int)> {
    let after = s.subrange(base, s.len() as int);
    match find(after, seq!['(']) {
        None => None,
        Some(op) => {
            let close = balanced_delimiter_offset(after.subrange(op, after.len() as int), '(', ')');
            match close {
                None => None,
                Some(cp) => Some((base + op + 1, base + op + cp)),
            }
        },
    }
}

/// Span of the parameter list of `fn main(...)` or `void name(...)`.
pub open spec fn uniform_list_span(s: Seq<char>) -> Option<(int, int)> {
    if fn_main_params(s) is Some {
        match find(lower(s), kw_main()) {
            None => None,
            Some(mi) => paren_span(s, mi + 4),
        }
    } else {
        match find(lower(s), kw_void()) {
            None => None,
            Some(vi) => paren_span(s, skip_ws_from(s, vi + 5)),
        }
    }
}

pub open spec fn trimmed_pieces(pl: Seq<char>) -> Seq<Seq<char>> {
    let p = split_top_level_commas(pl);
    Seq::new(p.len(), |i: int| trim(p[i]))
}

/// A non-output parameter named `key` (ignoring ASCII case).
pub open spec fn matches_uniform(seg: Seq<char>, key: Seq<char>) -> bool {
    match osl_param_full(seg) {
        Some(p) => !p.is_output && lower(p.name) == lower(key),
        None => false,
    }
}

pub open spec fn first_uniform(segs: Seq<Seq<char>>, key: Seq<char>, i: int) -> Option<int>
    decreases segs.len() - i,
{
    if i < 0 || i >= segs.len() {
        None
    } else if matches_uniform(segs[i], key) {
        Some(i)
    } else {
        first_uniform(segs, key, i + 1)
    }
}

pub open spec fn type_word(ty: OslParamType) -> Seq<char> {
    match ty {
        OslParamType::Float => "float"@,
        OslParamType::Int => "int"@,
        OslParamType::String => "string"@,
    }
}

pub open spec fn default_text_for(d: DefaultTextModel, ty: OslParamType) -> Seq<char> {
    match ty {
        OslParamType::Float => d.float_text,
        OslParamType::Int => d.int_text,
        OslParamType::String => d.string_text,
    }
}

/// A parameter written back with its new default.
pub open spec fn render_param(p: OslParamModel, d: DefaultTextModel) -> Seq<char> {
    if p.is_output {
        "output "@ + type_word(p.ty) + " "@ + p.name
    } else {
        type_word(p.ty) + " "@ + p.name + " = "@ + default_text_for(d, p.ty)
    }
}

/// Pieces joined by `", "`.
pub open spec fn join_comma(ts: Seq<Seq<char>>) -> Seq<char>
    decreases ts.len(),
{
    if ts.len() == 0 {
        Seq::empty()
    } else if ts.len() == 1 {
        ts[0]
    } else {
        ts[0] + ", "@ + join_comma(ts.subrange(1, ts.len() as int))
    }
}

/// The source with the default of the non-output parameter `key` set; the
/// source as it was when there is no such parameter.
pub open spec fn spec_set_uniform_default(s: Seq<char>, key: Seq<char>, d: DefaultTextModel) -> Seq<char> {
    match uniform_list_span(s) {
        None => s,
        Some((start, end)) => {
            let segs = trimmed_pieces(trim(s.subrange(start, end)));
            match first_uniform(segs, key, 0) {
                None => s,
                Some(i) => s.subrange(0, start) + join_comma(
                    segs.update(i, render_param(osl_param_full(segs[i])->0, d)),
                ) + s.subrange(end, s.len() as int),
            }
        },
    }
}

fn paren_span_exec(s: &[char], base: usize) -> (r: Option<(usize, usize)>)
    requires
        base <= s@.len(),
    ensures
        r matches Some((a, b)) ==> paren_span(s@, base as int) == Some((a as int, b as int)) && a
            <= b <= s@.len(),
        r is None ==> paren_span(s@, base as int) is None,
{
    let after = slice_of(s, base, s.len());
    let op = match find_ch(&after, '(') {
        Some(k) => k,
        None => return None,
    };
    proof {
        lemma_find_from_props(after@, seq!['('], 0);
    }
    let tail = slice_of(&after, op, after.len());
    match balanced_offset(&tail, '(', ')') {
        Some(cp) => Some((base + op + 1, base + op + cp)),
        None => None,
    }
}

fn uniform_list_span_exec(s: &[char]) -> (r: Option<(usize, usize)>)
    ensures
        r matches Some((a, b)) ==> uniform_list_span(s@) == Some((a as int, b as int)) && a <= b
            <= s@.len(),
        r is None ==> uniform_list_span(s@) is None,
{
    let lo = lower_of(s);
    if fn_main_params_of(s).is_some() {
        match find_first(&lo, &v_main()) {
            Some(mi) => {
                proof {
                    lemma_find_from_props(lo@, kw_main(), 0);
                }
                assert(lo@.len() == s@.len());
                assert(mi + 4 <= s.len());
                paren_span_exec(s, mi + 4)
            },
            None => None,
        }
    } else {
        match find_first(&lo, &v_void()) {
            Some(vi) => {
                proof {
                    lemma_find_from_props(lo@, kw_void(), 0);
                }
                assert(lo@.len() == s@.len());
                assert(vi + 5 <= s.len());
                let base = skip_ws(s, vi + 5);
                paren_span_exec(s, base)
            },
            None => None,
        }
    }
}

fn matches_uniform_exec(seg: &[char], key: &[char]) -> (r: bool)
    ensures
        r == matches_uniform(seg@, key@),
{
    match osl_param_full_exec(seg) {
        Some(p) => !p.is_output && seq_eq(&lower_of(&chars_of(p.name.as_str())), &lower_of(key)),
        None => false,
    }
}

fn type_word_exec(ty: OslParamType) -> (r: &'static str)
    ensures
        r@ == type_word(ty),
{
    match ty {
        OslParamType::Float => "float",
        OslParamType::Int => "int",
        OslParamType::String => "string",
    }
}

fn render_param_exec(p: &OslParameter, d: &ScalarDefaultText) -> (r: Vec<char>)
    ensures
        r@ == render_param(p@, d@),
{
    if p.is_output {
        let mut out = chars_of("output ");
        append_chars(&mut out, &chars_of(type_word_exec(p.ty)));
        append_chars(&mut out, &chars_of(" "));
        append_chars(&mut out, &chars_of(p.name.as_str()));
        out
    } else {
        let mut out = chars_of(type_word_exec(p.ty));
        append_chars(&mut out, &chars_of(" "));
        append_chars(&mut out, &chars_of(p.name.as_str()));
        append_chars(&mut out, &chars_of(" = "));
        let text = match p.ty {
            OslParamType::Float => d.float_text.as_str(),
            OslParamType::Int => d.int_text.as_str(),
            OslParamType::String => d.string_text.as_str(),
        };
        append_chars(&mut out, &chars_of(text));
        out
    }
}

fn join_comma_exec(ts: &Vec<Vec<char>>, from: usize) -> (r: Vec<char>)
    requires
        from <= ts.len(),
    ensures
        r@ == join_comma(views(ts@).subrange(from as int, ts.len() as int)),
    decreases ts.len() - from,
{
    let ghost tv = views(ts@).subrange(from as int, ts.len() as int);
    if from == ts.len() {
        return Vec::new();
    }
    if from + 1 == ts.len() {
        return slice_of(&ts[from], 0, ts[from].len());
    }
    let mut out = slice_of(&ts[from], 0, ts[from].len());
    append_chars(&mut out, &chars_of(", "));
    let rest = join_comma_exec(ts, from + 1);
    append_chars(&mut out, &rest);
    proof {
        assert(tv.subrange(1, tv.len() as int) =~= views(ts@).subrange(from + 1, ts.len() as int));
        assert(tv[0] == ts[from as int]@);
    }
    out
}

/// Update the default of one scalar uniform in an OSL function signature;
/// `default` holds the new value as each parameter type writes it.
pub fn set_script_uniform_default(source: &str, param_name: &str, default: &ScalarDefaultText) -> (r: String)
    ensures
        r@ == spec_set_uniform_default(source@, param_name@, default@),
{
    let s = chars_of(source);
    let (start, end) = match uniform_list_span_exec(&s) {
        Some(span) => span,
        None => return source.to_owned(),
    };
    let pl = trim_of(&slice_of(&s, start, end));
    let pieces = split_top_level_commas_of(&pl);
    let mut segs: Vec<Vec<char>> = Vec::new();
    let mut k: usize = 0;
    while k < pieces.len()
        invariant
            k <= pieces@.len(),
            views(segs@) =~= trimmed_pieces(pl@).subrange(0, k as int),
            views(pieces@) == split_top_level_commas(pl@),
        decreases pieces.len() - k,
    {
        let ghost before = views(segs@);
        segs.push(trim_of(&pieces[k]));
        assert(views(segs@) =~= before.push(trimmed_pieces(pl@)[k as int]));
        k = k + 1;
    }
    assert(views(segs@) =~= trimmed_pieces(pl@));
    let key = chars_of(param_name);
    let mut i: usize = 0;
    while i < segs.len()
        invariant
            i <= segs@.len(),
            key@ == param_name@,
            s@ == source@,
            start <= end <= s@.len(),
            uniform_list_span(s@) == Some((start as int, end as int)),
            pl@ == trim(s@.subrange(start as int, end as int)),
            views(segs@) == trimmed_pieces(pl@),
            first_uniform(views(segs@), key@, 0) == first_uniform(views(segs@), key@, i as int),
        decreases segs.len() - i,
    {
        if matches_uniform_exec(&segs[i], &key) {
            let p = match osl_param_full_exec(&segs[i]) {
                Some(p) => p,
                None => return source.to_owned(),
            };
            let rendered = render_param_exec(&p, default);
            let ghost old_segs = views(segs@);
            segs.set(i, rendered);
            assert(views(segs@) =~= old_segs.update(i as int, render_param(osl_param_full(old_segs[i as int])->0, default@)));
            let mut out = slice_of(&s, 0, start);
            append_chars(&mut out, &join_comma_exec(&segs, 0));
            append_chars(&mut out, &slice_of(&s, end, s.len()));
            assert(views(segs@).subrange(0, segs@.len() as int) =~= views(segs@));
            return string_of(&out);
        }
        i = i + 1;
    }
    source.to_owned()
}


/// The typed parameters of a shader header (comments are not removed first).
pub fn collect_osl_parameters(source: &str) -> (r: Vec<OslParameter>)
    ensures
        param_views(r@) == match osl_parameter_list(source@) {
            None => Seq::<OslParamModel>::empty(),
            Some(pl) => params_upto(split_top_level_commas(pl), split_top_level_commas(pl).len() as int),
        },
{
    let s = chars_of(source);
    let pl = match osl_parameter_list_of(&s) {
        Some(pl) => pl,
        None => {
            let r: Vec<OslParameter> = Vec::new();
            assert(param_views(r@) =~= Seq::<OslParamModel>::empty());
            return r;
        },
    };
    let pieces = split_top_level_commas_of(&pl);
    let mut out: Vec<OslParameter> = Vec::new();
    let mut i: usize = 0;
    assert(param_views(out@) =~= Seq::<OslParamModel>::empty());
    while i < pieces.len()
        invariant
            i <= pieces@.len(),
            param_views(out@) == params_upto(views(pieces@), i as int),
        decreases pieces.len() - i,
    {
        let ghost before = param_views(out@);
        match osl_param_full_exec(&pieces[i]) {
            Some(p) => {
                out.push(p);
                assert(param_views(out@) =~= before.push(p@));
            },
            None => {},
        }
        i = i + 1;
    }
    out
}

/// The signature of a legacy `fn main(...)` header alone.
pub fn parse_legacy_fn_main_signature(source: &str) -> (r: ScriptSignature)
    ensures
        r@ == legacy_signature(source@),
{
    legacy_signature_exec(&chars_of(source))
}


// ---------------------------------------------------------------------------
// Scalar assignments in a body
// ---------------------------------------------------------------------------

/// Line starts that never hold a plain scalar assignment.
pub open spec fn declaration_start(lowered: Seq<char>) -> bool {
    ||| starts_with(lowered, "output "@)
    ||| starts_with(lowered, "return "@)
    ||| starts_with(lowered, "float "@)
    ||| starts_with(lowered, "int "@)
    ||| starts_with(lowered, "string "@)
}

/// `name = value;` on one (trimmed) body line: the assigned name (the last
/// word before the first `=`, made of identifier characters) and the value
/// text (trimmed, trailing `;` removed).
pub open spec fn scalar_assignment(line: Seq<char>) -> Option<(Seq<char>, Seq<char>)> {
    if line.len() == 0 || starts_with(line, "//"@) || declaration_start(lower(line)) {
        None
    } else {
        match find(line, seq!['=']) {
            None => None,
            Some(e) => {
                let words = tokens(trim(line.subrange(0, e)));
                if words.len() == 0 || !all_ident(words.last()) {
                    None
                } else {
                    Some(
                        (
                            words.last(),
                            strip_trailing(trim(line.subrange(e + 1, line.len() as int)), ';'),
                        ),
                    )
                }
            },
        }
    }
}

fn starts_lit(s: &[char], lit: &str) -> (r: bool)
    ensures
        r == starts_with(s@, lit@),
{
    starts_with_chars(s, &chars_of(lit))
}

/// The name and value text of a plain scalar assignment line.
pub fn scalar_assignment_text(line: &str) -> (r: Option<(String, String)>)
    ensures
        r matches Some((n, v)) ==> scalar_assignment(line@) == Some((n@, v@)),
        r is None ==> scalar_assignment(line@) is None,
{
    let l = chars_of(line);
    if l.len() == 0 || starts_lit(&l, "//") {
        return None;
    }
    let lo = lower_of(&l);
    if starts_lit(&lo, "output ") || starts_lit(&lo, "return ") || starts_lit(&lo, "float ")
        || starts_lit(&lo, "int ") || starts_lit(&lo, "string ") {
        return None;
    }
    let e = match find_ch(&l, '=') {
        Some(e) => e,
        None => return None,
    };
    proof {
        lemma_find_from_props(l@, seq!['='], 0);
    }
    let words = tokens_of(&trim_of(&slice_of(&l, 0, e)));
    if words.len() == 0 {
        return None;
    }
    let name = &words[words.len() - 1];
    assert(views(words@).last() == name@);
    if !all_ident_of(name) {
        return None;
    }
    let value = strip_trailing_of(&trim_of(&slice_of(&l, e + 1, l.len())), ';');
    Some((string_of(name), string_of(&value)))
}

} // verus!
