//! The financial schema layer: its class definitions, the stage and sidecar
//! texts built around them, and the `inputs:` default values it declares.
//!
//! Every function takes the schema layer text (the bundled `schema.usda`)
//! as an argument.

use crate::path::{join_text, parent_text, path_join, path_parent};
use crate::script::{lemma_next_nl, line_at, next_newline, next_nl};
use crate::text::{
    append_chars, chars_of, contains, contains_chars, find, find_ch, find_first,
    lemma_find_from_props, slice_of, starts_with, starts_with_chars, string_of, strip_trailing,
    strip_trailing_of, trim, trim_of,
};
use vstd::prelude::*;

verus! {

/// Where the class definitions start in the schema layer.
pub open spec fn class_body_marker() -> Seq<char> {
    "over \"Plugins\""@
}

/// The schema layer from its `over "Plugins"` block on (all of it without one).
pub open spec fn spec_class_definitions(schema: Seq<char>) -> Seq<char> {
    match find(schema, class_body_marker()) {
        Some(k) => schema.subrange(k, schema.len() as int),
        None => schema,
    }
}

fn class_definitions_of(schema: &[char]) -> (r: Vec<char>)
    ensures
        r@ == spec_class_definitions(schema@),
{
    let marker = chars_of("over \"Plugins\"");
    match find_first(schema, &marker) {
        Some(k) => {
            proof {
                lemma_find_from_props(schema@, class_body_marker(), 0);
            }
            slice_of(schema, k, schema.len())
        },
        None => {
            let r = slice_of(schema, 0, schema.len());
            assert(r@ =~= schema@);
            r
        },
    }
}

/// Canonical `FinancialAsset` / `OtlOperator` / `PortfolioIntegrator` class specs.
pub fn schema_class_definitions_usda(schema: &str) -> (r: String)
    ensures
        r@ == spec_class_definitions(schema@),
{
    let cs = chars_of(schema);
    string_of(&class_definitions_of(&cs))
}

pub open spec fn spec_initial_stage(schema: Seq<char>) -> Seq<char> {
    "#usda 1.0\n(\n    defaultPrim = \"MarketLab\"\n)\n\n"@ + spec_class_definitions(schema)
        + "\n\ndef Scope \"MarketLab\"\n{\n}\n"@
}

/// Pristine schema-validated empty stage for cold start and new documents.
pub fn initial_stage_usda(schema: &str) -> (r: String)
    ensures
        r@ == spec_initial_stage(schema@),
{
    let cs = chars_of(schema);
    let mut out = chars_of("#usda 1.0\n(\n    defaultPrim = \"MarketLab\"\n)\n\n");
    append_chars(&mut out, &class_definitions_of(&cs));
    append_chars(&mut out, &chars_of("\n\ndef Scope \"MarketLab\"\n{\n}\n"));
    string_of(&out)
}

pub open spec fn spec_sidecar(schema: Seq<char>) -> Seq<char> {
    "#usda 1.0\n(\n)\n\n"@ + spec_class_definitions(schema)
}

/// Schema layer text written beside a saved stage document.
pub fn schema_sidecar_usda(schema: &str) -> (r: String)
    ensures
        r@ == spec_sidecar(schema@),
{
    let cs = chars_of(schema);
    let mut out = chars_of("#usda 1.0\n(\n)\n\n");
    append_chars(&mut out, &class_definitions_of(&cs));
    string_of(&out)
}

/// The class definitions go after the layer's metadata (`"\n)\n\n"`), or in
/// front of it without one; a layer that already defines `FinancialAsset`
/// is kept as it is.
pub open spec fn spec_embed_schema(layer: Seq<char>, schema: Seq<char>) -> Seq<char> {
    let body = spec_class_definitions(schema);
    if contains(layer, "class \"FinancialAsset\""@) {
        layer
    } else {
        match find(layer, "\n)\n\n"@) {
            Some(idx) => layer.subrange(0, idx + 4) + body + "\n\n"@ + layer.subrange(
                idx + 4,
                layer.len() as int,
            ),
            None => body + "\n\n"@ + layer,
        }
    }
}

/// Inject the schema class definitions into an operational session layer.
pub fn embed_schema_inline_in_layer(layer_usda: &str, schema: &str) -> (r: String)
    ensures
        r@ == spec_embed_schema(layer_usda@, schema@),
{
    let layer = chars_of(layer_usda);
    if contains_chars(&layer, &chars_of("class \"FinancialAsset\"")) {
        return layer_usda.to_owned();
    }
    let body = class_definitions_of(&chars_of(schema));
    let close = chars_of("\n)\n\n");
    proof {
        reveal_strlit("\n)\n\n");
    }
    match find_first(&layer, &close) {
        Some(idx) => {
            proof {
                lemma_find_from_props(layer@, close@, 0);
            }
            assert(idx + 4 <= layer.len());
            let mut out = slice_of(&layer, 0, idx + 4);
            append_chars(&mut out, &body);
            append_chars(&mut out, &chars_of("\n\n"));
            append_chars(&mut out, &slice_of(&layer, idx + 4, layer.len()));
            string_of(&out)
        },
        None => {
            let mut out = body;
            append_chars(&mut out, &chars_of("\n\n"));
            append_chars(&mut out, &layer);
            string_of(&out)
        },
    }
}

// ---------------------------------------------------------------------------
// Attribute defaults
// ---------------------------------------------------------------------------

/// The attribute type words a default line starts with, in the order tried.
pub open spec fn type_prefixes() -> Seq<Seq<char>> {
    seq!["bool "@, "token "@, "string "@, "double "@, "float "@, "int "@]
}

/// The first type word in `type_prefixes()[k..]` that `line` starts with.
pub open spec fn matched_prefix(line: Seq<char>, k: int) -> Option<Seq<char>>
    decreases 6 - k,
{
    if k < 0 || k >= 6 {
        None
    } else if starts_with(line, type_prefixes()[k]) {
        Some(type_prefixes()[k])
    } else {
        matched_prefix(line, k + 1)
    }
}

/// The attribute a schema line declares (an `inputs:` name or a bare one),
/// with its default text.
pub open spec fn default_entry(line: Seq<char>) -> Option<(Seq<char>, Seq<char>)> {
    let l = trim(line);
    match matched_prefix(l, 0) {
        None => None,
        Some(p) => {
            let rest = l.subrange(p.len() as int, l.len() as int);
            match find(rest, seq!['=']) {
                None => None,
                Some(e) => {
                    let name = trim(rest.subrange(0, e));
                    let value = trim(
                        strip_trailing(trim(rest.subrange(e + 1, rest.len() as int)), '('),
                    );
                    Some((name, value))
                },
            }
        },
    }
}

/// The declared defaults of the lines of `s` from index `i` on, in order.
pub open spec fn defaults_from(s: Seq<char>, i: int) -> Seq<(Seq<char>, Seq<char>)>
    decreases s.len() - i,
{
    if i < 0 || i >= s.len() {
        Seq::empty()
    } else {
        proof {
            lemma_next_nl(s, i);
        }
        let e = next_nl(s, i);
        let head: Seq<(Seq<char>, Seq<char>)> = match default_entry(line_at(s, i)) {
            Some(d) => seq![d],
            None => Seq::empty(),
        };
        head + (if e < s.len() {
            defaults_from(s, e + 1)
        } else {
            Seq::empty()
        })
    }
}

pub open spec fn pair_views(v: Seq<(String, String)>) -> Seq<(Seq<char>, Seq<char>)> {
    Seq::new(v.len(), |i: int| (v[i].0@, v[i].1@))
}

proof fn lemma_matched_prefix_starts(line: Seq<char>, k: int)
    ensures
        matched_prefix(line, k) matches Some(p) ==> starts_with(line, p),
    decreases 6 - k,
{
    if 0 <= k < 6 && !starts_with(line, type_prefixes()[k]) {
        lemma_matched_prefix_starts(line, k + 1);
    }
}

fn prefix_word(k: usize) -> (r: Vec<char>)
    requires
        k < 6,
    ensures
        r@ == type_prefixes()[k as int],
{
    if k == 0 {
        chars_of("bool ")
    } else if k == 1 {
        chars_of("token ")
    } else if k == 2 {
        chars_of("string ")
    } else if k == 3 {
        chars_of("double ")
    } else if k == 4 {
        chars_of("float ")
    } else {
        chars_of("int ")
    }
}

fn matched_prefix_of(line: &[char]) -> (r: Option<Vec<char>>)
    ensures
        r matches Some(p) ==> matched_prefix(line@, 0) == Some(p@),
        r is None ==> matched_prefix(line@, 0) is None,
{
    let mut k: usize = 0;
    while k < 6
        invariant
            k <= 6,
            matched_prefix(line@, 0) == matched_prefix(line@, k as int),
        decreases 6 - k,
    {
        let p = prefix_word(k);
        if starts_with_chars(line, &p) {
            return Some(p);
        }
        k = k + 1;
    }
    None
}

fn default_entry_of(line: &[char]) -> (r: Option<(Vec<char>, Vec<char>)>)
    ensures
        r matches Some((n, v)) ==> default_entry(line@) == Some((n@, v@)),
        r is None ==> default_entry(line@) is None,
{
    let l = trim_of(line);
    let p = match matched_prefix_of(&l) {
        Some(p) => p,
        None => return None,
    };
    proof {
        lemma_matched_prefix_starts(l@, 0);
    }
    assert(p@.len() <= l@.len());
    let rest = slice_of(&l, p.len(), l.len());
    let e = match find_ch(&rest, '=') {
        Some(e) => e,
        None => return None,
    };
    proof {
        lemma_find_from_props(rest@, seq!['='], 0);
    }
    let name = trim_of(&slice_of(&rest, 0, e));
    let v1 = trim_of(&slice_of(&rest, e + 1, rest.len()));
    let value = trim_of(&strip_trailing_of(&v1, '('));
    Some((name, value))
}

/// Map `inputs:attr` names (and bare attribute names) to their schema
/// default literal text, in the order the schema layer declares them.
pub fn financial_schema_defaults(schema: &str) -> (r: Vec<(String, String)>)
    ensures
        pair_views(r@) == defaults_from(schema@, 0),
{
    let s = chars_of(schema);
    let mut out: Vec<(String, String)> = Vec::new();
    let mut i: usize = 0;
    while i < s.len()
        invariant
            i <= s@.len(),
            s@ == schema@,
            defaults_from(s@, 0) == pair_views(out@) + defaults_from(s@, i as int),
        decreases s@.len() - i,
    {
        let e = next_newline(&s, i);
        let mut line = slice_of(&s, i, e);
        if e < s.len() && line.len() > 0 && line[line.len() - 1] == '\r' {
            let ghost before = line@;
            line.pop();
            assert(line@ =~= before.drop_last());
        }
        assert(line@ == line_at(s@, i as int));
        let ghost old_out = out@;
        let ghost head: Seq<(Seq<char>, Seq<char>)> = match default_entry(line@) {
            Some(d) => seq![d],
            None => Seq::empty(),
        };
        match default_entry_of(&line) {
            Some((n, v)) => {
                out.push((string_of(&n), string_of(&v)));
            },
            None => {},
        }
        assert(pair_views(out@) =~= pair_views(old_out) + head);
        let ghost old_i = i;
        if e < s.len() {
            i = e + 1;
        } else {
            i = s.len();
        }
        assert(defaults_from(s@, old_i as int) == head + defaults_from(s@, i as int));
        assert(pair_views(old_out) + (head + defaults_from(s@, i as int)) =~= pair_views(out@)
            + defaults_from(s@, i as int));
    }
    assert(pair_views(out@) + defaults_from(s@, i as int) =~= pair_views(out@));
    out
}

// ---------------------------------------------------------------------------
// Sidecar locations
// ---------------------------------------------------------------------------

/// Filename written beside saved stage documents.
pub const SCHEMA_SIDECAR_FILENAME: &'static str = "schema.usda";

/// Filename of the taxonomy metadata library written beside saved stage documents.
pub const METADATA_LIBRARY_SIDECAR_FILENAME: &'static str = "metadata_library.usda";

/// The directory for a document whose parent directory is `parent`: that
/// directory, or `.` when there is none or it is empty.
pub open spec fn spec_sidecar_directory(parent: Option<Seq<char>>) -> Seq<char> {
    match parent {
        Some(p) => if p.len() > 0 {
            p
        } else {
            "."@
        },
        None => "."@,
    }
}

/// The sidecar directory for a document, given the document's parent directory.
pub fn sidecar_directory_from_parent(parent: Option<String>) -> (r: String)
    ensures
        r@ == spec_sidecar_directory(opt_text(parent)),
{
    match parent {
        Some(p) => if chars_of(p.as_str()).len() > 0 {
            p
        } else {
            ".".to_owned()
        },
        None => ".".to_owned(),
    }
}

pub open spec fn opt_text(o: Option<String>) -> Option<Seq<char>> {
    match o {
        Some(s) => Some(s@),
        None => None,
    }
}

/// Directory that holds the sidecars of a saved stage document.
pub fn schema_sidecar_directory(document_path: &str) -> (r: String)
    ensures
        r@ == spec_sidecar_directory(path_parent(document_path@)),
{
    sidecar_directory_from_parent(parent_text(document_path))
}

/// Path to the schema sidecar for a saved stage document.
pub fn schema_sidecar_path_for_document(document_path: &str) -> (r: String)
    ensures
        r@ == path_join(spec_sidecar_directory(path_parent(document_path@)), SCHEMA_SIDECAR_FILENAME@),
{
    let dir = schema_sidecar_directory(document_path);
    join_text(dir.as_str(), SCHEMA_SIDECAR_FILENAME)
}

/// Path to the taxonomy metadata sidecar for a saved stage document.
pub fn metadata_sidecar_path_for_document(document_path: &str) -> (r: String)
    ensures
        r@ == path_join(
            spec_sidecar_directory(path_parent(document_path@)),
            METADATA_LIBRARY_SIDECAR_FILENAME@,
        ),
{
    let dir = schema_sidecar_directory(document_path);
    join_text(dir.as_str(), METADATA_LIBRARY_SIDECAR_FILENAME)
}

} // verus!
