//! Patch scripts: metadata parsing, invocation arguments and template
//! substitution.
//!
//! A patch script file is UTF-8 text.  An embedded metadata block is
//! delimited by the fixed marker comment lines `-- metadata start` and
//! `-- metadata end`; inside it, each line declares one name:
//! `-- affected <table_name>`, `-- created <table_name> <file_name>` or
//! `-- param <key> <default>`.  Everything outside the block is the
//! executable SQL body; it references parameters as `$key$` and the
//! destination archive's name as `$pack_name$`.

use vstd::prelude::*;

use crate::error::PatchError;
use crate::text;

verus! {

use vstd::string::StringSliceAdditionalSpecFns;

/// A declared parameter: key and default value.
#[derive(Debug, PartialEq, Eq)]
pub struct ScriptParam {
    pub key: Vec<u8>,
    pub default_value: Vec<u8>,
}

pub struct ScriptParamV {
    pub key: Seq<u8>,
    pub default_value: Seq<u8>,
}

impl DeepView for ScriptParam {
    type V = ScriptParamV;

    open spec fn deep_view(&self) -> ScriptParamV {
        ScriptParamV { key: self.key@, default_value: self.default_value@ }
    }
}

/// A declared created table: relational name and record file name.
#[derive(Debug, PartialEq, Eq)]
pub struct CreatedTable {
    pub table_name: Vec<u8>,
    pub file_name: Vec<u8>,
}

pub struct CreatedTableV {
    pub table_name: Seq<u8>,
    pub file_name: Seq<u8>,
}

impl DeepView for CreatedTable {
    type V = CreatedTableV;

    open spec fn deep_view(&self) -> CreatedTableV {
        CreatedTableV { table_name: self.table_name@, file_name: self.file_name@ }
    }
}

/// The declared metadata of a patch script.
#[derive(Debug, PartialEq, Eq)]
pub struct ScriptMetadata {
    pub tables_affected: Vec<Vec<u8>>,
    pub tables_created: Vec<CreatedTable>,
    pub parameters: Vec<ScriptParam>,
}

pub struct ScriptMetadataV {
    pub tables_affected: Seq<Seq<u8>>,
    pub tables_created: Seq<CreatedTableV>,
    pub parameters: Seq<ScriptParamV>,
}

impl DeepView for ScriptMetadata {
    type V = ScriptMetadataV;

    open spec fn deep_view(&self) -> ScriptMetadataV {
        ScriptMetadataV {
            tables_affected: self.tables_affected.deep_view(),
            tables_created: self.tables_created.deep_view(),
            parameters: self.parameters.deep_view(),
        }
    }
}

/// A parsed patch script: metadata plus the SQL body.
#[derive(Debug, PartialEq, Eq)]
pub struct PatchScript {
    pub metadata: ScriptMetadata,
    pub body: Vec<u8>,
}

pub struct PatchScriptV {
    pub metadata: ScriptMetadataV,
    pub body: Seq<u8>,
}

impl DeepView for PatchScript {
    type V = PatchScriptV;

    open spec fn deep_view(&self) -> PatchScriptV {
        PatchScriptV { metadata: self.metadata.deep_view(), body: self.body@ }
    }
}

pub open spec fn spec_meta_start() -> Seq<u8> {
    "-- metadata start".spec_bytes()
}

pub open spec fn spec_meta_end() -> Seq<u8> {
    "-- metadata end".spec_bytes()
}

pub open spec fn spec_affected_prefix() -> Seq<u8> {
    "-- affected ".spec_bytes()
}

pub open spec fn spec_created_prefix() -> Seq<u8> {
    "-- created ".spec_bytes()
}

pub open spec fn spec_param_prefix() -> Seq<u8> {
    "-- param ".spec_bytes()
}

/// One directive of the metadata block.
pub enum DirectiveV {
    Affected(Seq<u8>),
    Created(CreatedTableV),
    Param(ScriptParamV),
}

/// Splits a directive payload at its first blank: `<first> <second>`.
pub open spec fn spec_split_pair(rest: Seq<u8>) -> Option<(Seq<u8>, Seq<u8>)> {
    match text::spec_find(rest, seq![32u8], 0) {
        Some(i) => Some(
            (rest.subrange(0, i as int), text::spec_trim(rest.skip(i as int + 1))),
        ),
        None => None,
    }
}

/// Parses one trimmed line of the metadata block.
pub open spec fn spec_parse_directive(t: Seq<u8>) -> Option<DirectiveV> {
    if text::spec_starts_with(t, spec_affected_prefix()) {
        let name = text::spec_trim(t.skip(spec_affected_prefix().len() as int));
        if name.len() > 0 {
            Some(DirectiveV::Affected(name))
        } else {
            None
        }
    } else if text::spec_starts_with(t, spec_created_prefix()) {
        match spec_split_pair(text::spec_trim(t.skip(spec_created_prefix().len() as int))) {
            Some(p) => if p.0.len() > 0 && p.1.len() > 0 {
                Some(DirectiveV::Created(CreatedTableV { table_name: p.0, file_name: p.1 }))
            } else {
                None
            },
            None => None,
        }
    } else if text::spec_starts_with(t, spec_param_prefix()) {
        match spec_split_pair(text::spec_trim(t.skip(spec_param_prefix().len() as int))) {
            Some(p) => if p.0.len() > 0 {
                Some(DirectiveV::Param(ScriptParamV { key: p.0, default_value: p.1 }))
            } else {
                None
            },
            None => None,
        }
    } else {
        None
    }
}

/// The parser's state after some lines.
pub struct ScriptParseState {
    pub in_block: bool,
    pub meta: ScriptMetadataV,
    pub body_lines: Seq<Seq<u8>>,
    pub bad: bool,
}

pub open spec fn spec_script_init() -> ScriptParseState {
    ScriptParseState {
        in_block: false,
        meta: ScriptMetadataV {
            tables_affected: Seq::empty(),
            tables_created: Seq::empty(),
            parameters: Seq::empty(),
        },
        body_lines: Seq::empty(),
        bad: false,
    }
}

pub open spec fn spec_script_step(st: ScriptParseState, line: Seq<u8>) -> ScriptParseState {
    if st.bad {
        st
    } else {
        let t = text::spec_trim(line);
        if !st.in_block {
            if t == spec_meta_start() {
                ScriptParseState { in_block: true, ..st }
            } else {
                ScriptParseState { body_lines: st.body_lines.push(line), ..st }
            }
        } else {
            if t == spec_meta_end() {
                ScriptParseState { in_block: false, ..st }
            } else {
                match spec_parse_directive(t) {
                    Some(DirectiveV::Affected(name)) => ScriptParseState {
                        meta: ScriptMetadataV {
                            tables_affected: st.meta.tables_affected.push(name),
                            ..st.meta
                        },
                        ..st
                    },
                    Some(DirectiveV::Created(c)) => ScriptParseState {
                        meta: ScriptMetadataV {
                            tables_created: st.meta.tables_created.push(c),
                            ..st.meta
                        },
                        ..st
                    },
                    Some(DirectiveV::Param(p)) => ScriptParseState {
                        meta: ScriptMetadataV { parameters: st.meta.parameters.push(p), ..st.meta },
                        ..st
                    },
                    None => ScriptParseState { bad: true, ..st },
                }
            }
        }
    }
}

pub open spec fn spec_script_fold(lines: Seq<Seq<u8>>) -> ScriptParseState
    decreases lines.len(),
{
    if lines.len() == 0 {
        spec_script_init()
    } else {
        spec_script_step(spec_script_fold(lines.drop_last()), lines.last())
    }
}

/// The body text: lines joined back with line feeds.
pub open spec fn spec_join_lines(lines: Seq<Seq<u8>>) -> Seq<u8>
    decreases lines.len(),
{
    if lines.len() == 0 {
        Seq::empty()
    } else if lines.len() == 1 {
        lines[0]
    } else {
        spec_join_lines(lines.drop_last()) + seq![10u8] + lines.last()
    }
}

/// What parsing a whole script text yields: the metadata and the body,
/// or nothing for a malformed metadata block.
pub open spec fn spec_parse_script(content: Seq<u8>) -> Option<PatchScriptV> {
    let st = spec_script_fold(text::spec_split_lines(content));
    if st.bad || st.in_block {
        None
    } else {
        Some(PatchScriptV { metadata: st.meta, body: spec_join_lines(st.body_lines) })
    }
}

proof fn lemma_fold_bad_sticky(lines: Seq<Seq<u8>>, i: int)
    requires
        0 <= i <= lines.len(),
        spec_script_fold(lines.take(i)).bad,
    ensures
        spec_script_fold(lines).bad,
    decreases lines.len() - i,
{
    if i < lines.len() {
        assert(lines.take(i + 1).drop_last() =~= lines.take(i));
        assert(spec_script_fold(lines.take(i + 1)).bad);
        lemma_fold_bad_sticky(lines, i + 1);
    } else {
        assert(lines.take(i) =~= lines);
    }
}

/// Parses a directive line (already trimmed).
fn parse_directive(t: &Vec<u8>) -> (r: Option<(u8, Vec<u8>, Vec<u8>)>)
    ensures
        match r {
            Some(d) => (match spec_parse_directive(t@) {
                Some(DirectiveV::Affected(name)) => d.0 == 0 && d.1@ == name,
                Some(DirectiveV::Created(c)) => d.0 == 1 && d.1@ == c.table_name && d.2@
                    == c.file_name,
                Some(DirectiveV::Param(p)) => d.0 == 2 && d.1@ == p.key && d.2@ == p.default_value,
                None => false,
            }),
            None => spec_parse_directive(t@) is None,
        },
{
    let affected = text::bytes_of("-- affected ");
    let created = text::bytes_of("-- created ");
    let param = text::bytes_of("-- param ");
    if text::starts_with(t, &affected) {
        let tn = t.len();
        let rest = text::subvec(t, affected.len(), tn);
        proof {
            assert(rest@ =~= t@.skip(spec_affected_prefix().len() as int));
        }
        let name = text::trim(&rest);
        if name.len() > 0 {
            Some((0, name, Vec::new()))
        } else {
            None
        }
    } else if text::starts_with(t, &created) {
        let tn = t.len();
        let rest = text::subvec(t, created.len(), tn);
        proof {
            assert(rest@ =~= t@.skip(spec_created_prefix().len() as int));
        }
        let payload = text::trim(&rest);
        match split_pair(&payload) {
            Some((a, b)) => {
                if a.len() > 0 && b.len() > 0 {
                    Some((1, a, b))
                } else {
                    None
                }
            },
            None => None,
        }
    } else if text::starts_with(t, &param) {
        let tn = t.len();
        let rest = text::subvec(t, param.len(), tn);
        proof {
            assert(rest@ =~= t@.skip(spec_param_prefix().len() as int));
        }
        let payload = text::trim(&rest);
        match split_pair(&payload) {
            Some((a, b)) => {
                if a.len() > 0 {
                    Some((2, a, b))
                } else {
                    None
                }
            },
            None => None,
        }
    } else {
        None
    }
}

fn split_pair(rest: &Vec<u8>) -> (r: Option<(Vec<u8>, Vec<u8>)>)
    ensures
        match r {
            Some(p) => spec_split_pair(rest@) == Some((p.0@, p.1@)),
            None => spec_split_pair(rest@) is None,
        },
{
    let mut space: Vec<u8> = Vec::new();
    space.push(32);
    proof {
        assert(space@ =~= seq![32u8]);
        text::lemma_spec_find_props(rest@, seq![32u8], 0);
    }
    match text::find_from(rest, &space, 0) {
        Some(i) => {
            proof {
                match text::spec_find(rest@, seq![32u8], 0) {
                    Some(k) => {
                        if k < i {
                            assert(text::occurs_at(rest@, seq![32u8], k as int));
                        } else if i < k {
                            assert(!text::occurs_at(rest@, seq![32u8], i as int));
                        }
                    },
                    None => {
                        assert(!text::occurs_at(rest@, seq![32u8], i as int));
                    },
                }
            }
            let first = text::subvec(rest, 0, i);
            let rn = rest.len();
            let tail = text::subvec(rest, i + 1, rn);
            proof {
                assert(tail@ =~= rest@.skip(i as int + 1));
            }
            let second = text::trim(&tail);
            Some((first, second))
        },
        None => {
            proof {
                match text::spec_find(rest@, seq![32u8], 0) {
                    Some(k) => {
                        assert(text::occurs_at(rest@, seq![32u8], k as int));
                    },
                    None => {},
                }
            }
            None
        },
    }
}

/// Parses a whole script text into metadata and body; a malformed
/// metadata block is a script-format failure.
pub fn parse_script(content: &Vec<u8>) -> (r: Result<PatchScript, PatchError>)
    ensures
        match r {
            Ok(s) => spec_parse_script(content@) == Some(s.deep_view()),
            Err(e) => spec_parse_script(content@) is None && e is ScriptFormatFailure,
        },
{
    let lines = text::split_lines(content);
    let ghost lv = text::spec_split_lines(content@);
    let n = lines.len();
    let mut in_block = false;
    let mut affected: Vec<Vec<u8>> = Vec::new();
    let mut created: Vec<CreatedTable> = Vec::new();
    let mut params: Vec<ScriptParam> = Vec::new();
    let mut body_lines: Vec<Vec<u8>> = Vec::new();
    let meta_start = text::bytes_of("-- metadata start");
    let meta_end = text::bytes_of("-- metadata end");
    let mut i: usize = 0;
    proof {
        assert(lv.take(0) =~= Seq::<Seq<u8>>::empty());
    }
    while i < n
        invariant
            n == lines@.len(),
            lv == lines.deep_view(),
            lv == text::spec_split_lines(content@),
            lv.len() == n,
            i <= n,
            meta_start@ == spec_meta_start(),
            meta_end@ == spec_meta_end(),
            !spec_script_fold(lv.take(i as int)).bad,
            in_block == spec_script_fold(lv.take(i as int)).in_block,
            affected.deep_view() == spec_script_fold(lv.take(i as int)).meta.tables_affected,
            created.deep_view() == spec_script_fold(lv.take(i as int)).meta.tables_created,
            params.deep_view() == spec_script_fold(lv.take(i as int)).meta.parameters,
            body_lines.deep_view() == spec_script_fold(lv.take(i as int)).body_lines,
        decreases n - i,
    {
        let ghost st0 = spec_script_fold(lv.take(i as int));
        proof {
            assert(lv.take(i + 1).drop_last() =~= lv.take(i as int));
            assert(lv.take(i + 1).last() == lv[i as int]);
            assert(spec_script_fold(lv.take(i + 1)) == spec_script_step(st0, lv[i as int]));
            assert(lines@[i as int].deep_view() =~= lv[i as int]);
        }
        let line = &lines[i];
        proof {
            assert(line@ =~= lv[i as int]);
        }
        let t = text::trim(line);
        if !in_block {
            if text::bytes_eq(&t, &meta_start) {
                in_block = true;
            } else {
                body_lines.push(line.clone());
                proof {
                    assert(body_lines.deep_view() =~~= st0.body_lines.push(lv[i as int]));
                }
            }
        } else {
            if text::bytes_eq(&t, &meta_end) {
                in_block = false;
            } else {
                match parse_directive(&t) {
                    Some((kind, a, b)) => {
                        if kind == 0 {
                            affected.push(a);
                            proof {
                                assert(affected.deep_view() =~~= st0.meta.tables_affected.push(
                                    a@,
                                ));
                            }
                        } else if kind == 1 {
                            created.push(CreatedTable { table_name: a, file_name: b });
                            proof {
                                assert(created.deep_view() =~= st0.meta.tables_created.push(
                                    spec_parse_directive(
                                        text::spec_trim(lv[i as int]),
                                    )->Some_0->Created_0,
                                ));
                            }
                        } else {
                            params.push(ScriptParam { key: a, default_value: b });
                            proof {
                                assert(params.deep_view() =~= st0.meta.parameters.push(
                                    spec_parse_directive(
                                        text::spec_trim(lv[i as int]),
                                    )->Some_0->Param_0,
                                ));
                            }
                        }
                    },
                    None => {
                        proof {
                            assert(spec_script_fold(lv.take(i + 1)).bad);
                            lemma_fold_bad_sticky(lv, i + 1);
                        }
                        return Err(
                            PatchError::ScriptFormatFailure(
                                text::bytes_of("malformed metadata block"),
                            ),
                        );
                    },
                }
            }
        }
        i += 1;
    }
    proof {
        assert(lv.take(n as int) =~= lv);
    }
    if in_block {
        return Err(
            PatchError::ScriptFormatFailure(text::bytes_of("unterminated metadata block")),
        );
    }
    // Join the body lines back into one text.
    let bn = body_lines.len();
    let mut body: Vec<u8> = Vec::new();
    let mut k: usize = 0;
    let ghost bv = body_lines.deep_view();
    while k < bn
        invariant
            bn == body_lines@.len(),
            bv == body_lines.deep_view(),
            bv.len() == bn,
            k <= bn,
            body@ == spec_join_lines(bv.take(k as int)),
        decreases bn - k,
    {
        if k > 0 {
            body.push(10);
        }
        text::push_all(&mut body, &body_lines[k]);
        proof {
            assert(bv.take(k + 1).drop_last() =~= bv.take(k as int));
            assert(bv.take(k + 1).last() == bv[k as int]);
            assert(body_lines@[k as int].deep_view() =~= bv[k as int]);
            if k == 0 {
                assert(bv.take(1).len() == 1);
                assert(body@ =~= spec_join_lines(bv.take(1)));
            } else {
                assert(body@ =~= spec_join_lines(bv.take(k as int)) + seq![10u8] + bv[k as int]);
            }
        }
        k += 1;
    }
    proof {
        assert(bv.take(bn as int) =~= bv);
    }
    Ok(
        PatchScript {
            metadata: ScriptMetadata {
                tables_affected: affected,
                tables_created: created,
                parameters: params,
            },
            body,
        },
    )
}


/// The token a parameter is referenced with in the SQL body.
pub open spec fn spec_token(key: Seq<u8>) -> Seq<u8> {
    seq![36u8] + key + seq![36u8]
}

fn token_of(key: &Vec<u8>) -> (r: Vec<u8>)
    ensures
        r@ == spec_token(key@),
        r@.len() > 0,
{
    let mut r: Vec<u8> = Vec::new();
    r.push(36);
    text::push_all(&mut r, key);
    r.push(36);
    proof {
        assert(r@ =~= spec_token(key@));
    }
    r
}

/// The value bound to the parameter at position `i`: the supplied
/// positional argument, or the declared default when none was supplied.
pub open spec fn spec_bound_value(p: ScriptParamV, supplied: Seq<Seq<u8>>, i: int) -> Seq<u8> {
    if 0 <= i < supplied.len() {
        supplied[i]
    } else {
        p.default_value
    }
}

/// Sequential substitution of the declared parameters from position `i`
/// on: each replacement acts on the result of the previous one.
pub open spec fn spec_subst_from(
    body: Seq<u8>,
    decl: Seq<ScriptParamV>,
    supplied: Seq<Seq<u8>>,
    i: int,
) -> Seq<u8>
    decreases decl.len() - i,
{
    if i < 0 || i >= decl.len() {
        body
    } else {
        spec_subst_from(
            text::spec_replace_all(
                body,
                spec_token(decl[i].key),
                spec_bound_value(decl[i], supplied, i),
            ),
            decl,
            supplied,
            i + 1,
        )
    }
}

/// The name of the token that the destination archive's name replaces.
pub open spec fn spec_pack_name_key() -> Seq<u8> {
    "pack_name".spec_bytes()
}

/// The executable batch for one script invocation: parameters bound and
/// substituted in declaration order, then the destination-archive-name
/// token.
pub open spec fn spec_prepare(
    script: PatchScriptV,
    supplied: Seq<Seq<u8>>,
    pack_name: Seq<u8>,
) -> Seq<u8> {
    text::spec_replace_all(
        spec_subst_from(script.body, script.metadata.parameters, supplied, 0),
        spec_token(spec_pack_name_key()),
        pack_name,
    )
}

pub fn prepare_script(script: &PatchScript, supplied: &Vec<Vec<u8>>, pack_name: &Vec<u8>) -> (r:
    Vec<u8>)
    ensures
        r@ == spec_prepare(script.deep_view(), supplied.deep_view(), pack_name@),
{
    let ghost decl = script.metadata.parameters.deep_view();
    let ghost sup = supplied.deep_view();
    let mut body = script.body.clone();
    let ghost body0 = body@;
    let n = script.metadata.parameters.len();
    let mut i: usize = 0;
    while i < n
        invariant
            n == script.metadata.parameters@.len(),
            decl == script.metadata.parameters.deep_view(),
            sup == supplied.deep_view(),
            sup.len() == supplied@.len(),
            decl.len() == n,
            i <= n,
            spec_subst_from(body0, decl, sup, 0) == spec_subst_from(body@, decl, sup, i as int),
        decreases n - i,
    {
        let p = &script.metadata.parameters[i];
        proof {
            assert(p.deep_view() == decl[i as int]);
        }
        let token = token_of(&p.key);
        let value = if i < supplied.len() {
            let v = supplied[i].clone();
            proof {
                assert(v@ =~= sup[i as int]);
            }
            v
        } else {
            p.default_value.clone()
        };
        proof {
            assert(value@ == spec_bound_value(decl[i as int], sup, i as int));
        }
        body = text::replace_all(&body, &token, &value);
        i += 1;
    }
    let pack_token = token_of(&text::bytes_of("pack_name"));
    let r = text::replace_all(&body, &pack_token, pack_name);
    r
}

/// The scanner state for invocation arguments: fields are separated by
/// semicolons, and a field may be quoted, with a doubled quote standing
/// for a literal one.
#[derive(Debug, Clone, Copy, PartialEq, Eq, Structural)]
pub enum ArgMode {
    Normal,
    Quoted,
    Closed,
    Bad,
}

pub struct ArgStateV {
    pub fields: Seq<Seq<u8>>,
    pub cur: Seq<u8>,
    pub mode: ArgMode,
}

pub open spec fn spec_arg_init() -> ArgStateV {
    ArgStateV { fields: Seq::empty(), cur: Seq::empty(), mode: ArgMode::Normal }
}

pub open spec fn spec_arg_step(st: ArgStateV, b: u8) -> ArgStateV {
    match st.mode {
        ArgMode::Normal => if b == 59 {
            ArgStateV { fields: st.fields.push(st.cur), cur: Seq::empty(), mode: ArgMode::Normal }
        } else if b == 34 && st.cur.len() == 0 {
            ArgStateV { mode: ArgMode::Quoted, ..st }
        } else {
            ArgStateV { cur: st.cur.push(b), ..st }
        },
        ArgMode::Quoted => if b == 34 {
            ArgStateV { mode: ArgMode::Closed, ..st }
        } else {
            ArgStateV { cur: st.cur.push(b), ..st }
        },
        ArgMode::Closed => if b == 34 {
            ArgStateV { cur: st.cur.push(34), mode: ArgMode::Quoted, ..st }
        } else if b == 59 {
            ArgStateV { fields: st.fields.push(st.cur), cur: Seq::empty(), mode: ArgMode::Normal }
        } else {
            ArgStateV { mode: ArgMode::Bad, ..st }
        },
        ArgMode::Bad => st,
    }
}

pub open spec fn spec_arg_fold(s: Seq<u8>) -> ArgStateV
    decreases s.len(),
{
    if s.len() == 0 {
        spec_arg_init()
    } else {
        spec_arg_step(spec_arg_fold(s.drop_last()), s.last())
    }
}

/// The fields of an invocation argument, or nothing when the quoting is
/// malformed or unterminated.
pub open spec fn spec_parse_args(s: Seq<u8>) -> Option<Seq<Seq<u8>>> {
    let st = spec_arg_fold(s);
    match st.mode {
        ArgMode::Bad => None,
        ArgMode::Quoted => None,
        _ => Some(st.fields.push(st.cur)),
    }
}

/// A script invocation `<path>;<param>;...`: the path and the positional
/// parameters.
pub open spec fn spec_parse_invocation(s: Seq<u8>) -> Option<(Seq<u8>, Seq<Seq<u8>>)> {
    match spec_parse_args(s) {
        Some(fs) => if fs.len() > 0 && fs[0].len() > 0 {
            Some((fs[0], fs.skip(1)))
        } else {
            None
        },
        None => None,
    }
}

proof fn lemma_arg_bad_sticky(s: Seq<u8>, i: int)
    requires
        0 <= i <= s.len(),
        spec_arg_fold(s.take(i)).mode == ArgMode::Bad,
    ensures
        spec_arg_fold(s).mode == ArgMode::Bad,
    decreases s.len() - i,
{
    if i < s.len() {
        assert(s.take(i + 1).drop_last() =~= s.take(i));
        assert(spec_arg_fold(s.take(i + 1)).mode == ArgMode::Bad);
        lemma_arg_bad_sticky(s, i + 1);
    } else {
        assert(s.take(i) =~= s);
    }
}

/// Parses a script invocation argument; the quoting must be well formed
/// and the path must not be empty.
pub fn parse_script_invocation(s: &Vec<u8>) -> (r: Result<(Vec<u8>, Vec<Vec<u8>>), PatchError>)
    ensures
        match r {
            Ok(pr) => ({
                &&& spec_parse_invocation(s@) matches Some(x)
                &&& x.0 == pr.0@
                &&& x.1 =~~= pr.1.deep_view()
            }),
            Err(e) => spec_parse_invocation(s@) is None && e is ScriptFormatFailure,
        },
{
    let ghost sv = s@;
    let n = s.len();
    let mut fields: Vec<Vec<u8>> = Vec::new();
    let mut cur: Vec<u8> = Vec::new();
    let mut mode = ArgMode::Normal;
    let mut i: usize = 0;
    while i < n
        invariant
            n == s@.len(),
            sv == s@,
            i <= n,
            mode != ArgMode::Bad,
            fields.deep_view() == spec_arg_fold(sv.take(i as int)).fields,
            cur@ == spec_arg_fold(sv.take(i as int)).cur,
            mode == spec_arg_fold(sv.take(i as int)).mode,
        decreases n - i,
    {
        let ghost st0 = spec_arg_fold(sv.take(i as int));
        proof {
            assert(sv.take(i + 1).drop_last() =~= sv.take(i as int));
            assert(sv.take(i + 1).last() == sv[i as int]);
            assert(spec_arg_fold(sv.take(i + 1)) == spec_arg_step(st0, sv[i as int]));
        }
        let b = s[i];
        match mode {
            ArgMode::Normal => {
                if b == 59 {
                    let ghost f0 = fields.deep_view();
                    fields.push(cur);
                    cur = Vec::new();
                    proof {
                        assert(fields.deep_view() =~~= f0.push(st0.cur));
                    }
                } else if b == 34 && cur.len() == 0 {
                    mode = ArgMode::Quoted;
                } else {
                    cur.push(b);
                }
            },
            ArgMode::Quoted => {
                if b == 34 {
                    mode = ArgMode::Closed;
                } else {
                    cur.push(b);
                }
            },
            ArgMode::Closed => {
                if b == 34 {
                    cur.push(34);
                    mode = ArgMode::Quoted;
                } else if b == 59 {
                    let ghost f0 = fields.deep_view();
                    fields.push(cur);
                    cur = Vec::new();
                    mode = ArgMode::Normal;
                    proof {
                        assert(fields.deep_view() =~~= f0.push(st0.cur));
                    }
                } else {
                    proof {
                        assert(spec_arg_fold(sv.take(i + 1)).mode == ArgMode::Bad);
                        lemma_arg_bad_sticky(sv, i + 1);
                    }
                    return Err(
                        PatchError::ScriptFormatFailure(
                            text::bytes_of("malformed invocation quoting"),
                        ),
                    );
                }
            },
            ArgMode::Bad => {
                proof {
                    assert(false);
                }
                return Err(
                    PatchError::ScriptFormatFailure(text::bytes_of("malformed invocation quoting")),
                );
            },
        }
        i += 1;
    }
    proof {
        assert(sv.take(n as int) =~= sv);
    }
    match mode {
        ArgMode::Quoted => Err(
            PatchError::ScriptFormatFailure(text::bytes_of("unterminated quote")),
        ),
        _ => {
            let ghost f0 = fields.deep_view();
            fields.push(cur);
            proof {
                assert(fields.deep_view() =~~= f0.push(spec_arg_fold(sv).cur));
            }
            if fields[0].len() == 0 {
                return Err(PatchError::ScriptFormatFailure(text::bytes_of("empty script path")));
            }
            let path = fields[0].clone();
            let m = fields.len();
            let mut params: Vec<Vec<u8>> = Vec::new();
            let ghost fv = fields.deep_view();
            let mut k: usize = 1;
            while k < m
                invariant
                    m == fields@.len(),
                    fv == fields.deep_view(),
                    fv.len() == m,
                    1 <= k <= m,
                    params@.len() == k - 1,
                    forall|j: int|
                        0 <= j < k - 1 ==> (#[trigger] params@[j]).deep_view() == fv[j + 1],
                decreases m - k,
            {
                let ghost pl0 = params@;
                params.push(fields[k].clone());
                proof {
                    assert(params@[k - 1].deep_view() =~= fv[k as int]);
                    assert(forall|j: int| 0 <= j < k - 1 ==> params@[j] == pl0[j]);
                }
                k += 1;
            }
            proof {
                assert(params.deep_view() =~~= fv.skip(1));
                assert(path@ =~= fv[0]);
            }
            Ok((path, params))
        },
    }
}

} // verus!
