//! The template data model and its decoder.
//!
//! [`decode_template`] maps a JSON document, given as a [`JsonValue`],
//! into an [`ArmTemplate`], routing every expression-typed string field
//! through the expression parser.  Unknown members never fail the decode:
//! the decoder looks fields up by name and ignores everything else.
//! Structural faults are reported as a [`DecodeError`], distinct from the
//! parser's [`ParseError`].
//!
//! Field conventions, pinned down by [`decode_template_spec`]:
//! - a missing `parameters` member decodes to `None`;
//! - a missing `variables` member decodes to an empty mapping;
//! - a missing `resources` member decodes to an empty sequence;
//! - a missing `outputs` member decodes to `None`;
//! - in the `parameters` and `variables` mappings a repeated key keeps
//!   its first position and its last value;
//! - a resource's `dependsOn` entries are dependency identifiers, each an
//!   expression naming a target resource, never an owned copy of it.

use vstd::prelude::*;

use crate::ast::ArmExpression;
use crate::ast::ExprView;
use crate::ast::expr_view;
use crate::ast::exprs_view;
use crate::json::JsonValue;
use crate::json::JsonView;
use crate::json::json_entries_view;
use crate::json::lookup_spec;
use crate::json::lemma_json_entries_view_index;
use crate::json::lemma_jsons_view_index;
use crate::json::lemma_lookup_absent;
use crate::json::lemma_lookup_at;
use crate::parser::ParseError;
use crate::parser::ParseErrorView;
use crate::parser::parse;
use crate::parser::parse_spec;

verus! {

/// A whole template: parameters, variables, resources and outputs.
#[derive(Debug, PartialEq)]
pub struct ArmTemplate {
    /// The declared parameters, by name.
    pub parameters: Option<Vec<(String, ArmParameter)>>,
    /// The declared variables, by name.
    pub variables: Option<Vec<(String, ArmExpression)>>,
    /// The resources, in declaration order.
    pub resources: Vec<ArmResource>,
    /// The outputs, in declaration order.
    pub outputs: Option<Vec<ArmOutput>>,
}

/// One declared parameter.
#[derive(Debug, PartialEq)]
pub struct ArmParameter {
    /// The parameter's declared type, for example `string`.
    pub param_type: String,
    /// The default, an expression, when one is declared.
    pub default_value: Option<ArmExpression>,
}

/// One resource.
#[derive(Debug, PartialEq)]
pub struct ArmResource {
    /// The resource's name; names may themselves be templated.
    pub name: ArmExpression,
    /// The resource's type, for example `Microsoft.Web/sites`.
    pub resource_type: String,
    /// The API version the resource is declared against.
    pub api_version: String,
    /// Dependency identifiers: expressions naming the resources this one
    /// must follow.
    pub depends_on: Option<Vec<ArmExpression>>,
}

/// One output.
#[derive(Debug, PartialEq)]
pub struct ArmOutput {
    pub name: String,
    pub value: ArmExpression,
}

/// A structural decoding failure.
#[derive(Debug, Clone, PartialEq)]
pub enum DecodeError {
    /// A member that must be an object is something else.
    ExpectedObject,
    /// A member that must be a string is something else.
    ExpectedString,
    /// A member that must be an array is something else.
    ExpectedArray,
    /// A required member is absent; carries the member's name.
    MissingField(String),
    /// An expression-typed string failed to parse.
    Expression(ParseError),
}

/// The mathematical view of a [`DecodeError`].
pub enum DecodeErrorView {
    ExpectedObject,
    ExpectedString,
    ExpectedArray,
    MissingField(Seq<char>),
    Expression(ParseErrorView),
}

impl DeepView for DecodeError {
    type V = DecodeErrorView;

    open spec fn deep_view(&self) -> DecodeErrorView {
        match self {
            DecodeError::ExpectedObject => DecodeErrorView::ExpectedObject,
            DecodeError::ExpectedString => DecodeErrorView::ExpectedString,
            DecodeError::ExpectedArray => DecodeErrorView::ExpectedArray,
            DecodeError::MissingField(n) => DecodeErrorView::MissingField(n@),
            DecodeError::Expression(e) => DecodeErrorView::Expression(e.deep_view()),
        }
    }
}

/// The view of an [`ArmParameter`].
pub struct ParameterView {
    pub param_type: Seq<char>,
    pub default_value: Option<ExprView>,
}

/// The view of an [`ArmResource`].
pub struct ResourceView {
    pub name: ExprView,
    pub resource_type: Seq<char>,
    pub api_version: Seq<char>,
    pub depends_on: Option<Seq<ExprView>>,
}

/// The view of an [`ArmOutput`].
pub struct OutputView {
    pub name: Seq<char>,
    pub value: ExprView,
}

/// The view of an [`ArmTemplate`].
pub struct TemplateView {
    pub parameters: Option<Seq<(Seq<char>, ParameterView)>>,
    pub variables: Option<Seq<(Seq<char>, ExprView)>>,
    pub resources: Seq<ResourceView>,
    pub outputs: Option<Seq<OutputView>>,
}

pub open spec fn parameter_view(p: ArmParameter) -> ParameterView {
    ParameterView {
        param_type: p.param_type@,
        default_value: match p.default_value {
            Some(e) => Some(expr_view(e)),
            None => None,
        },
    }
}

pub open spec fn resource_view(r: ArmResource) -> ResourceView {
    ResourceView {
        name: expr_view(r.name),
        resource_type: r.resource_type@,
        api_version: r.api_version@,
        depends_on: match r.depends_on {
            Some(d) => Some(exprs_view(d@)),
            None => None,
        },
    }
}

pub open spec fn output_view(o: ArmOutput) -> OutputView {
    OutputView { name: o.name@, value: expr_view(o.value) }
}

/// The views of a parameters mapping, in order.
pub open spec fn params_entries_view(s: Seq<(String, ArmParameter)>) -> Seq<
    (Seq<char>, ParameterView),
>
    decreases s,
{
    if s.len() == 0 {
        Seq::empty()
    } else {
        seq![(s[0].0@, parameter_view(s[0].1))] + params_entries_view(s.drop_first())
    }
}

/// The views of a variables mapping, in order.
pub open spec fn vars_entries_view(s: Seq<(String, ArmExpression)>) -> Seq<(Seq<char>, ExprView)>
    decreases s,
{
    if s.len() == 0 {
        Seq::empty()
    } else {
        seq![(s[0].0@, expr_view(s[0].1))] + vars_entries_view(s.drop_first())
    }
}

/// The views of a resource sequence, in order.
pub open spec fn resources_view(s: Seq<ArmResource>) -> Seq<ResourceView>
    decreases s,
{
    if s.len() == 0 {
        Seq::empty()
    } else {
        seq![resource_view(s[0])] + resources_view(s.drop_first())
    }
}

/// The views of an output sequence, in order.
pub open spec fn outputs_view(s: Seq<ArmOutput>) -> Seq<OutputView>
    decreases s,
{
    if s.len() == 0 {
        Seq::empty()
    } else {
        seq![output_view(s[0])] + outputs_view(s.drop_first())
    }
}

pub open spec fn template_view(t: ArmTemplate) -> TemplateView {
    TemplateView {
        parameters: match t.parameters {
            Some(m) => Some(params_entries_view(m@)),
            None => None,
        },
        variables: match t.variables {
            Some(m) => Some(vars_entries_view(m@)),
            None => None,
        },
        resources: resources_view(t.resources@),
        outputs: match t.outputs {
            Some(os) => Some(outputs_view(os@)),
            None => None,
        },
    }
}

impl DeepView for ArmTemplate {
    type V = TemplateView;

    open spec fn deep_view(&self) -> TemplateView {
        template_view(*self)
    }
}

/// The view of a whole decoding outcome.
pub open spec fn template_result_view(r: Result<ArmTemplate, DecodeError>) -> Result<
    TemplateView,
    DecodeErrorView,
> {
    match r {
        Ok(t) => Ok(t.deep_view()),
        Err(e) => Err(e.deep_view()),
    }
}

/// The mapping with `k` bound to `v`: a present key keeps its position
/// and takes the new value, an absent one is appended.
pub open spec fn upsert_spec<V>(m: Seq<(Seq<char>, V)>, k: Seq<char>, v: V) -> Seq<(Seq<char>, V)>
    decreases m.len(),
{
    if m.len() == 0 {
        seq![(k, v)]
    } else if m[0].0 == k {
        seq![(k, v)] + m.drop_first()
    } else {
        seq![m[0]] + upsert_spec(m.drop_first(), k, v)
    }
}

/// An expression-typed field: the member must be a string, which the
/// expression parser reads.
pub open spec fn decode_expr_spec(j: JsonView) -> Result<ExprView, DecodeErrorView> {
    match j {
        JsonView::Text(s) => match parse_spec(s) {
            Ok(e) => Ok(e),
            Err(pe) => Err(DecodeErrorView::Expression(pe)),
        },
        _ => Err(DecodeErrorView::ExpectedString),
    }
}

/// One parameter: an object with a required `type` string and an optional
/// `defaultValue` expression.
pub open spec fn decode_parameter_spec(j: JsonView) -> Result<ParameterView, DecodeErrorView> {
    match j {
        JsonView::Object(entries) => match lookup_spec(entries, "type"@) {
            None => Err(DecodeErrorView::MissingField("type"@)),
            Some(tv) => match tv {
                JsonView::Text(t) => match lookup_spec(entries, "defaultValue"@) {
                    None => Ok(ParameterView { param_type: t, default_value: None }),
                    Some(dv) => match decode_expr_spec(dv) {
                        Ok(e) => Ok(ParameterView { param_type: t, default_value: Some(e) }),
                        Err(de) => Err(de),
                    },
                },
                _ => Err(DecodeErrorView::ExpectedString),
            },
        },
        _ => Err(DecodeErrorView::ExpectedObject),
    }
}

/// The parameters mapping, entry by entry, later values of a repeated key
/// replacing earlier ones.
pub open spec fn decode_params_from(
    entries: Seq<(Seq<char>, JsonView)>,
    acc: Seq<(Seq<char>, ParameterView)>,
) -> Result<Seq<(Seq<char>, ParameterView)>, DecodeErrorView>
    decreases entries.len(),
{
    if entries.len() == 0 {
        Ok(acc)
    } else {
        match decode_parameter_spec(entries[0].1) {
            Err(e) => Err(e),
            Ok(p) => decode_params_from(entries.drop_first(), upsert_spec(acc, entries[0].0, p)),
        }
    }
}

/// The variables mapping, entry by entry; every value is an expression.
pub open spec fn decode_vars_from(
    entries: Seq<(Seq<char>, JsonView)>,
    acc: Seq<(Seq<char>, ExprView)>,
) -> Result<Seq<(Seq<char>, ExprView)>, DecodeErrorView>
    decreases entries.len(),
{
    if entries.len() == 0 {
        Ok(acc)
    } else {
        match decode_expr_spec(entries[0].1) {
            Err(e) => Err(e),
            Ok(x) => decode_vars_from(entries.drop_first(), upsert_spec(acc, entries[0].0, x)),
        }
    }
}

/// The dependency identifiers of a resource, each an expression.
pub open spec fn decode_depends_from(items: Seq<JsonView>, acc: Seq<ExprView>) -> Result<
    Seq<ExprView>,
    DecodeErrorView,
>
    decreases items.len(),
{
    if items.len() == 0 {
        Ok(acc)
    } else {
        match decode_expr_spec(items[0]) {
            Err(e) => Err(e),
            Ok(x) => decode_depends_from(items.drop_first(), acc.push(x)),
        }
    }
}

/// One resource: an object with required `name` (an expression), `type`
/// and `apiVersion` strings, and an optional `dependsOn` array of
/// dependency identifiers.
pub open spec fn decode_resource_spec(j: JsonView) -> Result<ResourceView, DecodeErrorView> {
    match j {
        JsonView::Object(entries) => match lookup_spec(entries, "name"@) {
            None => Err(DecodeErrorView::MissingField("name"@)),
            Some(nv) => match decode_expr_spec(nv) {
                Err(e) => Err(e),
                Ok(name) => match lookup_spec(entries, "type"@) {
                    None => Err(DecodeErrorView::MissingField("type"@)),
                    Some(tv) => match tv {
                        JsonView::Text(t) => match lookup_spec(entries, "apiVersion"@) {
                            None => Err(DecodeErrorView::MissingField("apiVersion"@)),
                            Some(av) => match av {
                                JsonView::Text(a) => match lookup_spec(entries, "dependsOn"@) {
                                    None => Ok(
                                        ResourceView {
                                            name: name,
                                            resource_type: t,
                                            api_version: a,
                                            depends_on: None,
                                        },
                                    ),
                                    Some(dv) => match dv {
                                        JsonView::Array(items) => match decode_depends_from(
                                            items,
                                            Seq::empty(),
                                        ) {
                                            Err(e) => Err(e),
                                            Ok(deps) => Ok(
                                                ResourceView {
                                                    name: name,
                                                    resource_type: t,
                                                    api_version: a,
                                                    depends_on: Some(deps),
                                                },
                                            ),
                                        },
                                        _ => Err(DecodeErrorView::ExpectedArray),
                                    },
                                },
                                _ => Err(DecodeErrorView::ExpectedString),
                            },
                        },
                        _ => Err(DecodeErrorView::ExpectedString),
                    },
                },
            },
        },
        _ => Err(DecodeErrorView::ExpectedObject),
    }
}

/// The resources, in order.
pub open spec fn decode_resources_from(items: Seq<JsonView>, acc: Seq<ResourceView>) -> Result<
    Seq<ResourceView>,
    DecodeErrorView,
>
    decreases items.len(),
{
    if items.len() == 0 {
        Ok(acc)
    } else {
        match decode_resource_spec(items[0]) {
            Err(e) => Err(e),
            Ok(r) => decode_resources_from(items.drop_first(), acc.push(r)),
        }
    }
}

/// One output: an object with a required `name` string and a required
/// `value` expression.
pub open spec fn decode_output_spec(j: JsonView) -> Result<OutputView, DecodeErrorView> {
    match j {
        JsonView::Object(entries) => match lookup_spec(entries, "name"@) {
            None => Err(DecodeErrorView::MissingField("name"@)),
            Some(nv) => match nv {
                JsonView::Text(n) => match lookup_spec(entries, "value"@) {
                    None => Err(DecodeErrorView::MissingField("value"@)),
                    Some(vv) => match decode_expr_spec(vv) {
                        Err(e) => Err(e),
                        Ok(x) => Ok(OutputView { name: n, value: x }),
                    },
                },
                _ => Err(DecodeErrorView::ExpectedString),
            },
        },
        _ => Err(DecodeErrorView::ExpectedObject),
    }
}

/// The outputs, in order.
pub open spec fn decode_outputs_from(items: Seq<JsonView>, acc: Seq<OutputView>) -> Result<
    Seq<OutputView>,
    DecodeErrorView,
>
    decreases items.len(),
{
    if items.len() == 0 {
        Ok(acc)
    } else {
        match decode_output_spec(items[0]) {
            Err(e) => Err(e),
            Ok(o) => decode_outputs_from(items.drop_first(), acc.push(o)),
        }
    }
}

/// The whole document.  It must be an object; every member other than the
/// four known ones is ignored.
pub open spec fn decode_template_spec(j: JsonView) -> Result<TemplateView, DecodeErrorView> {
    match j {
        JsonView::Object(entries) => {
            let pr = (match lookup_spec(entries, "parameters"@) {
                None => Ok(None),
                Some(pv) => match pv {
                    JsonView::Object(pes) => match decode_params_from(pes, Seq::empty()) {
                        Ok(m) => Ok(Some(m)),
                        Err(e) => Err(e),
                    },
                    _ => Err(DecodeErrorView::ExpectedObject),
                },
            });
            match pr {
                Err(e) => Err(e),
                Ok(params) => {
                    let vr = (match lookup_spec(entries, "variables"@) {
                        None => Ok(Some(Seq::empty())),
                        Some(vv) => match vv {
                            JsonView::Object(ves) => match decode_vars_from(ves, Seq::empty()) {
                                Ok(m) => Ok(Some(m)),
                                Err(e) => Err(e),
                            },
                            _ => Err(DecodeErrorView::ExpectedObject),
                        },
                    });
                    match vr {
                        Err(e) => Err(e),
                        Ok(vars) => {
                            let rr = (match lookup_spec(entries, "resources"@) {
                                None => Ok(Seq::empty()),
                                Some(rv) => match rv {
                                    JsonView::Array(items) => match decode_resources_from(
                                        items,
                                        Seq::empty(),
                                    ) {
                                        Ok(rs) => Ok(rs),
                                        Err(e) => Err(e),
                                    },
                                    _ => Err(DecodeErrorView::ExpectedArray),
                                },
                            });
                            match rr {
                                Err(e) => Err(e),
                                Ok(resources) => {
                                    let or = (match lookup_spec(entries, "outputs"@) {
                                        None => Ok(None),
                                        Some(ov) => match ov {
                                            JsonView::Array(items) => match decode_outputs_from(
                                                items,
                                                Seq::empty(),
                                            ) {
                                                Ok(os) => Ok(Some(os)),
                                                Err(e) => Err(e),
                                            },
                                            _ => Err(DecodeErrorView::ExpectedArray),
                                        },
                                    });
                                    match or {
                                        Err(e) => Err(e),
                                        Ok(outputs) => Ok(
                                            TemplateView {
                                                parameters: params,
                                                variables: vars,
                                                resources: resources,
                                                outputs: outputs,
                                            },
                                        ),
                                    }
                                },
                            }
                        },
                    }
                },
            }
        },
        _ => Err(DecodeErrorView::ExpectedObject),
    }
}

} // verus!

use vstd::string::StrSliceExecFns;

verus! {

/// The parameter-map views sequence has one view per entry, in place.
proof fn lemma_params_entries_view_index(s: Seq<(String, ArmParameter)>)
    ensures
        params_entries_view(s).len() == s.len(),
        forall|i: int|
            0 <= i < s.len() ==> params_entries_view(s)[i] == (s[i].0@, parameter_view(s[i].1)),
    decreases s.len(),
{
    if s.len() > 0 {
        lemma_params_entries_view_index(s.drop_first());
        assert forall|i: int| 0 <= i < s.len() implies params_entries_view(s)[i] == (
        s[i].0@,
        parameter_view(s[i].1),
        ) by {
            if i > 0 {
                assert(params_entries_view(s)[i] == params_entries_view(s.drop_first())[i - 1]);
                assert(s.drop_first()[i - 1] == s[i]);
            }
        }
    }
}

/// The variable-map views sequence has one view per entry, in place.
proof fn lemma_vars_entries_view_index(s: Seq<(String, ArmExpression)>)
    ensures
        vars_entries_view(s).len() == s.len(),
        forall|i: int|
            0 <= i < s.len() ==> vars_entries_view(s)[i] == (s[i].0@, expr_view(s[i].1)),
    decreases s.len(),
{
    if s.len() > 0 {
        lemma_vars_entries_view_index(s.drop_first());
        assert forall|i: int| 0 <= i < s.len() implies vars_entries_view(s)[i] == (
        s[i].0@,
        expr_view(s[i].1),
        ) by {
            if i > 0 {
                assert(vars_entries_view(s)[i] == vars_entries_view(s.drop_first())[i - 1]);
                assert(s.drop_first()[i - 1] == s[i]);
            }
        }
    }
}

/// Appending one resource appends its view.
proof fn lemma_resources_view_push(s: Seq<ArmResource>, r: ArmResource)
    ensures
        resources_view(s.push(r)) == resources_view(s).push(resource_view(r)),
    decreases s.len(),
{
    if s.len() == 0 {
        assert(s =~= Seq::<ArmResource>::empty());
        assert(s.push(r).drop_first() =~= Seq::<ArmResource>::empty());
        assert(s.push(r)[0] == r);
        assert(resources_view(s) == Seq::<ResourceView>::empty());
        assert(seq![resource_view(r)] + Seq::<ResourceView>::empty()
            =~= Seq::<ResourceView>::empty().push(resource_view(r)));
    } else {
        lemma_resources_view_push(s.drop_first(), r);
        assert(s.push(r).drop_first() =~= s.drop_first().push(r));
        assert(s.push(r)[0] == s[0]);
        assert(resources_view(s.push(r)) == seq![resource_view(s[0])] + resources_view(
            s.drop_first().push(r),
        ));
        assert(resources_view(s) == seq![resource_view(s[0])] + resources_view(s.drop_first()));
        assert(seq![resource_view(s[0])] + resources_view(s.drop_first()).push(resource_view(r))
            =~= (seq![resource_view(s[0])] + resources_view(s.drop_first())).push(
            resource_view(r),
        ));
    }
}

/// Appending one output appends its view.
proof fn lemma_outputs_view_push(s: Seq<ArmOutput>, o: ArmOutput)
    ensures
        outputs_view(s.push(o)) == outputs_view(s).push(output_view(o)),
    decreases s.len(),
{
    if s.len() == 0 {
        assert(s =~= Seq::<ArmOutput>::empty());
        assert(s.push(o).drop_first() =~= Seq::<ArmOutput>::empty());
        assert(s.push(o)[0] == o);
        assert(outputs_view(s) == Seq::<OutputView>::empty());
        assert(seq![output_view(o)] + Seq::<OutputView>::empty()
            =~= Seq::<OutputView>::empty().push(output_view(o)));
    } else {
        lemma_outputs_view_push(s.drop_first(), o);
        assert(s.push(o).drop_first() =~= s.drop_first().push(o));
        assert(s.push(o)[0] == s[0]);
        assert(outputs_view(s.push(o)) == seq![output_view(s[0])] + outputs_view(
            s.drop_first().push(o),
        ));
        assert(outputs_view(s) == seq![output_view(s[0])] + outputs_view(s.drop_first()));
        assert(seq![output_view(s[0])] + outputs_view(s.drop_first()).push(output_view(o)) =~= (
        seq![output_view(s[0])] + outputs_view(s.drop_first())).push(output_view(o)));
    }
}

/// Characterizes [`upsert_spec`] at the first position holding the key.
proof fn lemma_upsert_at<V>(m: Seq<(Seq<char>, V)>, k: Seq<char>, v: V, j: int)
    requires
        0 <= j < m.len(),
        m[j].0 == k,
        forall|i: int| 0 <= i < j ==> m[i].0 != k,
    ensures
        upsert_spec(m, k, v) == m.update(j, (k, v)),
    decreases j,
{
    if j == 0 {
        assert(seq![(k, v)] + m.drop_first() =~= m.update(0, (k, v)));
    } else {
        assert forall|i: int| 0 <= i < j - 1 implies m.drop_first()[i].0 != k by {
            assert(m.drop_first()[i] == m[i + 1]);
        }
        assert(m.drop_first()[j - 1] == m[j]);
        lemma_upsert_at(m.drop_first(), k, v, j - 1);
        assert(seq![m[0]] + m.drop_first().update(j - 1, (k, v)) =~= m.update(j, (k, v)));
    }
}

/// Characterizes [`upsert_spec`] when the key is absent.
proof fn lemma_upsert_absent<V>(m: Seq<(Seq<char>, V)>, k: Seq<char>, v: V)
    requires
        forall|i: int| 0 <= i < m.len() ==> m[i].0 != k,
    ensures
        upsert_spec(m, k, v) == m.push((k, v)),
    decreases m.len(),
{
    if m.len() == 0 {
        assert(seq![(k, v)] =~= m.push((k, v)));
    } else {
        assert forall|i: int| 0 <= i < m.len() - 1 implies m.drop_first()[i].0 != k by {
            assert(m.drop_first()[i] == m[i + 1]);
        }
        lemma_upsert_absent(m.drop_first(), k, v);
        assert(seq![m[0]] + m.drop_first().push((k, v)) =~= m.push((k, v)));
    }
}

/// Whether two strings hold the same characters.
fn str_eq(a: &str, b: &str) -> (r: bool)
    ensures
        r == (a@ == b@),
{
    let n = a.unicode_len();
    if b.unicode_len() != n {
        return false;
    }
    let mut i: usize = 0;
    while i < n
        invariant
            i <= n,
            n == a@.len(),
            n == b@.len(),
            forall|j: int| 0 <= j < i ==> a@[j] == b@[j],
        decreases n - i,
    {
        if a.get_char(i) != b.get_char(i) {
            return false;
        }
        i = i + 1;
    }
    proof {
        assert(a@ =~= b@);
    }
    true
}

/// The value under the first occurrence of `key` in an object, if any.
#[verifier::loop_isolation(false)]
fn lookup_entry<'a>(entries: &'a Vec<(String, JsonValue)>, key: &str) -> (r: Option<
    &'a JsonValue,
>)
    ensures
        match r {
            Some(v) => lookup_spec(json_entries_view(entries@), key@) == Some(v.deep_view()),
            None => lookup_spec(json_entries_view(entries@), key@) is None,
        },
{
    proof {
        lemma_json_entries_view_index(entries@);
    }
    let n = entries.len();
    let mut j: usize = 0;
    while j < n
        invariant
            j <= n,
            forall|i: int| 0 <= i < j ==> entries@[i].0@ != key@,
        decreases n - j,
    {
        let e = &entries[j];
        if str_eq(e.0.as_str(), key) {
            proof {
                lemma_lookup_at(json_entries_view(entries@), key@, j as int);
            }
            return Some(&e.1);
        }
        j = j + 1;
    }
    proof {
        lemma_lookup_absent(json_entries_view(entries@), key@);
    }
    None
}

/// An expression-typed field: the member must be a string, which the
/// expression parser reads.
fn decode_expr_field(j: &JsonValue) -> (r: Result<ArmExpression, DecodeError>)
    ensures
        (match r {
            Ok(e) => decode_expr_spec(j.deep_view()) == Ok::<ExprView, DecodeErrorView>(
                e.deep_view(),
            ),
            Err(e) => decode_expr_spec(j.deep_view()) == Err::<ExprView, DecodeErrorView>(
                e.deep_view(),
            ),
        }),
{
    match j {
        JsonValue::Text(s) => match parse(s.as_str()) {
            Ok(e) => Ok(e),
            Err(pe) => Err(DecodeError::Expression(pe)),
        },
        _ => Err(DecodeError::ExpectedString),
    }
}

} // verus!

verus! {

/// Binds `k` to `v` in the parameters mapping: a present key keeps its
/// position and takes the new value, an absent one is appended.
#[verifier::loop_isolation(false)]
fn upsert_param(m: &mut Vec<(String, ArmParameter)>, k: String, v: ArmParameter)
    ensures
        params_entries_view(final(m)@) == upsert_spec(
            params_entries_view(old(m)@),
            k@,
            parameter_view(v),
        ),
{
    proof {
        lemma_params_entries_view_index(m@);
    }
    let ghost m0 = m@;
    let n = m.len();
    let mut j: usize = 0;
    while j < n
        invariant
            j <= n,
            m@ == m0,
            forall|i: int| 0 <= i < j ==> m@[i].0@ != k@,
        decreases n - j,
    {
        if str_eq(m[j].0.as_str(), k.as_str()) {
            proof {
                lemma_upsert_at(params_entries_view(m0), k@, parameter_view(v), j as int);
            }
            m.set(j, (k, v));
            proof {
                lemma_params_entries_view_index(m@);
                assert(params_entries_view(m@) =~= params_entries_view(m0).update(
                    j as int,
                    (k@, parameter_view(v)),
                ));
            }
            return ;
        }
        j = j + 1;
    }
    proof {
        lemma_upsert_absent(params_entries_view(m0), k@, parameter_view(v));
    }
    m.push((k, v));
    proof {
        lemma_params_entries_view_index(m@);
        assert(params_entries_view(m@) =~= params_entries_view(m0).push((k@, parameter_view(v))));
    }
}

/// Binds `k` to `v` in the variables mapping, as [`upsert_param`] does.
#[verifier::loop_isolation(false)]
fn upsert_var(m: &mut Vec<(String, ArmExpression)>, k: String, v: ArmExpression)
    ensures
        vars_entries_view(final(m)@) == upsert_spec(
            vars_entries_view(old(m)@),
            k@,
            expr_view(v),
        ),
{
    proof {
        lemma_vars_entries_view_index(m@);
    }
    let ghost m0 = m@;
    let ghost vv = expr_view(v);
    let n = m.len();
    let mut j: usize = 0;
    while j < n
        invariant
            j <= n,
            m@ == m0,
            forall|i: int| 0 <= i < j ==> m@[i].0@ != k@,
        decreases n - j,
    {
        if str_eq(m[j].0.as_str(), k.as_str()) {
            proof {
                lemma_upsert_at(vars_entries_view(m0), k@, vv, j as int);
            }
            m.set(j, (k, v));
            proof {
                lemma_vars_entries_view_index(m@);
                assert(vars_entries_view(m@) =~= vars_entries_view(m0).update(j as int, (k@, vv)));
            }
            return ;
        }
        j = j + 1;
    }
    proof {
        lemma_upsert_absent(vars_entries_view(m0), k@, vv);
    }
    m.push((k, v));
    proof {
        lemma_vars_entries_view_index(m@);
        assert(vars_entries_view(m@) =~= vars_entries_view(m0).push((k@, vv)));
    }
}

/// One parameter: an object with a required `type` string and an optional
/// `defaultValue` expression.
fn decode_parameter(j: &JsonValue) -> (r: Result<ArmParameter, DecodeError>)
    ensures
        (match r {
            Ok(p) => decode_parameter_spec(j.deep_view()) == Ok::<ParameterView, DecodeErrorView>(
                parameter_view(p),
            ),
            Err(e) => decode_parameter_spec(j.deep_view()) == Err::<
                ParameterView,
                DecodeErrorView,
            >(e.deep_view()),
        }),
{
    match j {
        JsonValue::Object(entries) => {
            let tv = match lookup_entry(entries, "type") {
                None => {
                    return Err(DecodeError::MissingField(String::from_str("type")));
                },
                Some(tv) => tv,
            };
            let t = match tv {
                JsonValue::Text(t) => t,
                _ => {
                    return Err(DecodeError::ExpectedString);
                },
            };
            match lookup_entry(entries, "defaultValue") {
                None => Ok(ArmParameter { param_type: t.clone(), default_value: None }),
                Some(dv) => match decode_expr_field(dv) {
                    Ok(e) => Ok(ArmParameter { param_type: t.clone(), default_value: Some(e) }),
                    Err(de) => Err(de),
                },
            }
        },
        _ => Err(DecodeError::ExpectedObject),
    }
}

/// The parameters mapping, entry by entry.
#[verifier::loop_isolation(false)]
fn decode_parameters_obj(entries: &Vec<(String, JsonValue)>) -> (r: Result<
    Vec<(String, ArmParameter)>,
    DecodeError,
>)
    ensures
        (match r {
            Ok(m) => decode_params_from(json_entries_view(entries@), Seq::empty()) == Ok::<
                Seq<(Seq<char>, ParameterView)>,
                DecodeErrorView,
            >(params_entries_view(m@)),
            Err(e) => decode_params_from(json_entries_view(entries@), Seq::empty()) == Err::<
                Seq<(Seq<char>, ParameterView)>,
                DecodeErrorView,
            >(e.deep_view()),
        }),
{
    proof {
        lemma_json_entries_view_index(entries@);
    }
    let ghost ev = json_entries_view(entries@);
    let n = entries.len();
    let mut out: Vec<(String, ArmParameter)> = Vec::new();
    let mut i: usize = 0;
    proof {
        assert(ev.subrange(0, ev.len() as int) =~= ev);
        assert(params_entries_view(out@) =~= Seq::<(Seq<char>, ParameterView)>::empty());
    }
    while i < n
        invariant
            i <= n,
            n == ev.len(),
            decode_params_from(ev, Seq::empty()) == decode_params_from(
                ev.subrange(i as int, ev.len() as int),
                params_entries_view(out@),
            ),
        decreases n - i,
    {
        let e = &entries[i];
        let ghost rem = ev.subrange(i as int, ev.len() as int);
        proof {
            assert(rem[0] == ev[i as int]);
            assert(rem.drop_first() =~= ev.subrange(i as int + 1, ev.len() as int));
        }
        match decode_parameter(&e.1) {
            Err(de) => {
                return Err(de);
            },
            Ok(p) => {
                upsert_param(&mut out, e.0.clone(), p);
            },
        }
        i = i + 1;
    }
    proof {
        assert(ev.subrange(n as int, ev.len() as int) =~= Seq::<(Seq<char>, JsonView)>::empty());
    }
    Ok(out)
}

/// The variables mapping, entry by entry.
#[verifier::loop_isolation(false)]
fn decode_variables_obj(entries: &Vec<(String, JsonValue)>) -> (r: Result<
    Vec<(String, ArmExpression)>,
    DecodeError,
>)
    ensures
        (match r {
            Ok(m) => decode_vars_from(json_entries_view(entries@), Seq::empty()) == Ok::<
                Seq<(Seq<char>, ExprView)>,
                DecodeErrorView,
            >(vars_entries_view(m@)),
            Err(e) => decode_vars_from(json_entries_view(entries@), Seq::empty()) == Err::<
                Seq<(Seq<char>, ExprView)>,
                DecodeErrorView,
            >(e.deep_view()),
        }),
{
    proof {
        lemma_json_entries_view_index(entries@);
    }
    let ghost ev = json_entries_view(entries@);
    let n = entries.len();
    let mut out: Vec<(String, ArmExpression)> = Vec::new();
    let mut i: usize = 0;
    proof {
        assert(ev.subrange(0, ev.len() as int) =~= ev);
        assert(vars_entries_view(out@) =~= Seq::<(Seq<char>, ExprView)>::empty());
    }
    while i < n
        invariant
            i <= n,
            n == ev.len(),
            decode_vars_from(ev, Seq::empty()) == decode_vars_from(
                ev.subrange(i as int, ev.len() as int),
                vars_entries_view(out@),
            ),
        decreases n - i,
    {
        let e = &entries[i];
        let ghost rem = ev.subrange(i as int, ev.len() as int);
        proof {
            assert(rem[0] == ev[i as int]);
            assert(rem.drop_first() =~= ev.subrange(i as int + 1, ev.len() as int));
        }
        match decode_expr_field(&e.1) {
            Err(de) => {
                return Err(de);
            },
            Ok(x) => {
                upsert_var(&mut out, e.0.clone(), x);
            },
        }
        i = i + 1;
    }
    proof {
        assert(ev.subrange(n as int, ev.len() as int) =~= Seq::<(Seq<char>, JsonView)>::empty());
    }
    Ok(out)
}

} // verus!

verus! {

/// The dependency identifiers of a resource, each an expression.
#[verifier::loop_isolation(false)]
fn decode_depends(items: &Vec<JsonValue>) -> (r: Result<Vec<ArmExpression>, DecodeError>)
    ensures
        (match r {
            Ok(d) => decode_depends_from(crate::json::jsons_view(items@), Seq::empty()) == Ok::<
                Seq<ExprView>,
                DecodeErrorView,
            >(exprs_view(d@)),
            Err(e) => decode_depends_from(crate::json::jsons_view(items@), Seq::empty()) == Err::<
                Seq<ExprView>,
                DecodeErrorView,
            >(e.deep_view()),
        }),
{
    proof {
        lemma_jsons_view_index(items@);
    }
    let ghost iv = crate::json::jsons_view(items@);
    let n = items.len();
    let mut out: Vec<ArmExpression> = Vec::new();
    let mut i: usize = 0;
    proof {
        assert(iv.subrange(0, iv.len() as int) =~= iv);
        assert(exprs_view(out@) =~= Seq::<ExprView>::empty());
    }
    while i < n
        invariant
            i <= n,
            n == iv.len(),
            decode_depends_from(iv, Seq::empty()) == decode_depends_from(
                iv.subrange(i as int, iv.len() as int),
                exprs_view(out@),
            ),
        decreases n - i,
    {
        let ghost rem = iv.subrange(i as int, iv.len() as int);
        proof {
            assert(rem[0] == iv[i as int]);
            assert(rem.drop_first() =~= iv.subrange(i as int + 1, iv.len() as int));
        }
        match decode_expr_field(&items[i]) {
            Err(de) => {
                return Err(de);
            },
            Ok(x) => {
                proof {
                    crate::ast::lemma_exprs_view_push(out@, x);
                }
                out.push(x);
            },
        }
        i = i + 1;
    }
    proof {
        assert(iv.subrange(n as int, iv.len() as int) =~= Seq::<JsonView>::empty());
    }
    Ok(out)
}

/// One resource of the template.
fn decode_resource(j: &JsonValue) -> (r: Result<ArmResource, DecodeError>)
    ensures
        (match r {
            Ok(res) => decode_resource_spec(j.deep_view()) == Ok::<ResourceView, DecodeErrorView>(
                resource_view(res),
            ),
            Err(e) => decode_resource_spec(j.deep_view()) == Err::<ResourceView, DecodeErrorView>(
                e.deep_view(),
            ),
        }),
{
    match j {
        JsonValue::Object(entries) => {
            let nv = match lookup_entry(entries, "name") {
                None => {
                    return Err(DecodeError::MissingField(String::from_str("name")));
                },
                Some(nv) => nv,
            };
            let name = match decode_expr_field(nv) {
                Err(e) => {
                    return Err(e);
                },
                Ok(name) => name,
            };
            let t = match lookup_entry(entries, "type") {
                None => {
                    return Err(DecodeError::MissingField(String::from_str("type")));
                },
                Some(tv) => match tv {
                    JsonValue::Text(t) => t.clone(),
                    _ => {
                        return Err(DecodeError::ExpectedString);
                    },
                },
            };
            let a = match lookup_entry(entries, "apiVersion") {
                None => {
                    return Err(DecodeError::MissingField(String::from_str("apiVersion")));
                },
                Some(av) => match av {
                    JsonValue::Text(a) => a.clone(),
                    _ => {
                        return Err(DecodeError::ExpectedString);
                    },
                },
            };
            match lookup_entry(entries, "dependsOn") {
                None => Ok(
                    ArmResource { name, resource_type: t, api_version: a, depends_on: None },
                ),
                Some(dv) => match dv {
                    JsonValue::Array(items) => match decode_depends(items) {
                        Err(e) => Err(e),
                        Ok(deps) => Ok(
                            ArmResource {
                                name,
                                resource_type: t,
                                api_version: a,
                                depends_on: Some(deps),
                            },
                        ),
                    },
                    _ => Err(DecodeError::ExpectedArray),
                },
            }
        },
        _ => Err(DecodeError::ExpectedObject),
    }
}

/// The resources, in declaration order.
#[verifier::loop_isolation(false)]
fn decode_resources(items: &Vec<JsonValue>) -> (r: Result<Vec<ArmResource>, DecodeError>)
    ensures
        (match r {
            Ok(rs) => decode_resources_from(crate::json::jsons_view(items@), Seq::empty()) == Ok::<
                Seq<ResourceView>,
                DecodeErrorView,
            >(resources_view(rs@)),
            Err(e) => decode_resources_from(crate::json::jsons_view(items@), Seq::empty())
                == Err::<Seq<ResourceView>, DecodeErrorView>(e.deep_view()),
        }),
{
    proof {
        lemma_jsons_view_index(items@);
    }
    let ghost iv = crate::json::jsons_view(items@);
    let n = items.len();
    let mut out: Vec<ArmResource> = Vec::new();
    let mut i: usize = 0;
    proof {
        assert(iv.subrange(0, iv.len() as int) =~= iv);
        assert(resources_view(out@) =~= Seq::<ResourceView>::empty());
    }
    while i < n
        invariant
            i <= n,
            n == iv.len(),
            decode_resources_from(iv, Seq::empty()) == decode_resources_from(
                iv.subrange(i as int, iv.len() as int),
                resources_view(out@),
            ),
        decreases n - i,
    {
        let ghost rem = iv.subrange(i as int, iv.len() as int);
        proof {
            assert(rem[0] == iv[i as int]);
            assert(rem.drop_first() =~= iv.subrange(i as int + 1, iv.len() as int));
        }
        match decode_resource(&items[i]) {
            Err(de) => {
                return Err(de);
            },
            Ok(res) => {
                proof {
                    lemma_resources_view_push(out@, res);
                }
                out.push(res);
            },
        }
        i = i + 1;
    }
    proof {
        assert(iv.subrange(n as int, iv.len() as int) =~= Seq::<JsonView>::empty());
    }
    Ok(out)
}

/// One output of the template.
fn decode_output(j: &JsonValue) -> (r: Result<ArmOutput, DecodeError>)
    ensures
        (match r {
            Ok(o) => decode_output_spec(j.deep_view()) == Ok::<OutputView, DecodeErrorView>(
                output_view(o),
            ),
            Err(e) => decode_output_spec(j.deep_view()) == Err::<OutputView, DecodeErrorView>(
                e.deep_view(),
            ),
        }),
{
    match j {
        JsonValue::Object(entries) => {
            let n = match lookup_entry(entries, "name") {
                None => {
                    return Err(DecodeError::MissingField(String::from_str("name")));
                },
                Some(nv) => match nv {
                    JsonValue::Text(n) => n.clone(),
                    _ => {
                        return Err(DecodeError::ExpectedString);
                    },
                },
            };
            match lookup_entry(entries, "value") {
                None => Err(DecodeError::MissingField(String::from_str("value"))),
                Some(vv) => match decode_expr_field(vv) {
                    Err(e) => Err(e),
                    Ok(x) => Ok(ArmOutput { name: n, value: x }),
                },
            }
        },
        _ => Err(DecodeError::ExpectedObject),
    }
}

/// The outputs, in declaration order.
#[verifier::loop_isolation(false)]
fn decode_outputs(items: &Vec<JsonValue>) -> (r: Result<Vec<ArmOutput>, DecodeError>)
    ensures
        (match r {
            Ok(os) => decode_outputs_from(crate::json::jsons_view(items@), Seq::empty()) == Ok::<
                Seq<OutputView>,
                DecodeErrorView,
            >(outputs_view(os@)),
            Err(e) => decode_outputs_from(crate::json::jsons_view(items@), Seq::empty()) == Err::<
                Seq<OutputView>,
                DecodeErrorView,
            >(e.deep_view()),
        }),
{
    proof {
        lemma_jsons_view_index(items@);
    }
    let ghost iv = crate::json::jsons_view(items@);
    let n = items.len();
    let mut out: Vec<ArmOutput> = Vec::new();
    let mut i: usize = 0;
    proof {
        assert(iv.subrange(0, iv.len() as int) =~= iv);
        assert(outputs_view(out@) =~= Seq::<OutputView>::empty());
    }
    while i < n
        invariant
            i <= n,
            n == iv.len(),
            decode_outputs_from(iv, Seq::empty()) == decode_outputs_from(
                iv.subrange(i as int, iv.len() as int),
                outputs_view(out@),
            ),
        decreases n - i,
    {
        let ghost rem = iv.subrange(i as int, iv.len() as int);
        proof {
            assert(rem[0] == iv[i as int]);
            assert(rem.drop_first() =~= iv.subrange(i as int + 1, iv.len() as int));
        }
        match decode_output(&items[i]) {
            Err(de) => {
                return Err(de);
            },
            Ok(o) => {
                proof {
                    lemma_outputs_view_push(out@, o);
                }
                out.push(o);
            },
        }
        i = i + 1;
    }
    proof {
        assert(iv.subrange(n as int, iv.len() as int) =~= Seq::<JsonView>::empty());
    }
    Ok(out)
}

/// Decodes a whole JSON document into a template.
///
/// The contract pins the outcome, through its view, to
/// [`decode_template_spec`]: every expression-typed string field runs
/// through the parser, unknown members are ignored, and each structural
/// fault maps to its [`DecodeError`].
pub fn decode_template(j: &JsonValue) -> (r: Result<ArmTemplate, DecodeError>)
    ensures
        template_result_view(r) == decode_template_spec(j.deep_view()),
{
    let entries = match j {
        JsonValue::Object(entries) => entries,
        _ => {
            return Err(DecodeError::ExpectedObject);
        },
    };
    let parameters = match lookup_entry(entries, "parameters") {
        None => None,
        Some(pv) => match pv {
            JsonValue::Object(pes) => match decode_parameters_obj(pes) {
                Ok(m) => Some(m),
                Err(e) => {
                    return Err(e);
                },
            },
            _ => {
                return Err(DecodeError::ExpectedObject);
            },
        },
    };
    let variables = match lookup_entry(entries, "variables") {
        None => Some(Vec::new()),
        Some(vv) => match vv {
            JsonValue::Object(ves) => match decode_variables_obj(ves) {
                Ok(m) => Some(m),
                Err(e) => {
                    return Err(e);
                },
            },
            _ => {
                return Err(DecodeError::ExpectedObject);
            },
        },
    };
    let resources = match lookup_entry(entries, "resources") {
        None => Vec::new(),
        Some(rv) => match rv {
            JsonValue::Array(items) => match decode_resources(items) {
                Ok(rs) => rs,
                Err(e) => {
                    return Err(e);
                },
            },
            _ => {
                return Err(DecodeError::ExpectedArray);
            },
        },
    };
    let outputs = match lookup_entry(entries, "outputs") {
        None => None,
        Some(ov) => match ov {
            JsonValue::Array(items) => match decode_outputs(items) {
                Ok(os) => Some(os),
                Err(e) => {
                    return Err(e);
                },
            },
            _ => {
                return Err(DecodeError::ExpectedArray);
            },
        },
    };
    proof {
        assert(vars_entries_view(Seq::<(String, ArmExpression)>::empty())
            =~= Seq::<(Seq<char>, ExprView)>::empty());
        assert(resources_view(Seq::<ArmResource>::empty()) =~= Seq::<ResourceView>::empty());
    }
    Ok(ArmTemplate { parameters, variables, resources, outputs })
}

} // verus!

verus! {

/// No two entries of the mapping share a key.
pub open spec fn keys_unique<V>(m: Seq<(Seq<char>, V)>) -> bool {
    forall|i: int, j: int| 0 <= i < j < m.len() ==> m[i].0 != m[j].0
}

/// Binding a key never breaks key uniqueness.
proof fn lemma_upsert_preserves_unique<V>(m: Seq<(Seq<char>, V)>, k: Seq<char>, v: V)
    requires
        keys_unique(m),
    ensures
        keys_unique(upsert_spec(m, k, v)),
{
    if exists|j: int| 0 <= j < m.len() && m[j].0 == k {
        let j = choose|j: int| 0 <= j < m.len() && m[j].0 == k;
        assert forall|i: int| 0 <= i < j implies m[i].0 != k by {
            assert(m[j].0 == k);
        }
        lemma_upsert_at(m, k, v, j);
        let u = m.update(j, (k, v));
        assert forall|i1: int, i2: int| 0 <= i1 < i2 < u.len() implies u[i1].0 != u[i2].0 by {
            if i1 != j && i2 != j {
                assert(u[i1] == m[i1]);
                assert(u[i2] == m[i2]);
            } else if i1 == j {
                assert(u[i2] == m[i2]);
                assert(m[i2].0 != m[j].0);
            } else {
                assert(u[i1] == m[i1]);
                assert(m[i1].0 != m[j].0);
            }
        }
    } else {
        lemma_upsert_absent(m, k, v);
        let u = m.push((k, v));
        assert forall|i1: int, i2: int| 0 <= i1 < i2 < u.len() implies u[i1].0 != u[i2].0 by {
            if i2 == m.len() as int {
                assert(u[i1] == m[i1]);
                assert(m[i1].0 != k);
            } else {
                assert(u[i1] == m[i1]);
                assert(u[i2] == m[i2]);
            }
        }
    }
}

/// Decoding parameter entries into a mapping with unique keys yields a
/// mapping with unique keys.
proof fn lemma_decode_params_unique(
    entries: Seq<(Seq<char>, JsonView)>,
    acc: Seq<(Seq<char>, ParameterView)>,
)
    requires
        keys_unique(acc),
    ensures
        (match decode_params_from(entries, acc) {
            Ok(m) => keys_unique(m),
            Err(e) => true,
        }),
    decreases entries.len(),
{
    if entries.len() > 0 {
        match decode_parameter_spec(entries[0].1) {
            Err(e) => {
            },
            Ok(p) => {
                lemma_upsert_preserves_unique(acc, entries[0].0, p);
                lemma_decode_params_unique(
                    entries.drop_first(),
                    upsert_spec(acc, entries[0].0, p),
                );
            },
        }
    }
}

/// Decoding variable entries into a mapping with unique keys yields a
/// mapping with unique keys.
proof fn lemma_decode_vars_unique(
    entries: Seq<(Seq<char>, JsonView)>,
    acc: Seq<(Seq<char>, ExprView)>,
)
    requires
        keys_unique(acc),
    ensures
        (match decode_vars_from(entries, acc) {
            Ok(m) => keys_unique(m),
            Err(e) => true,
        }),
    decreases entries.len(),
{
    if entries.len() > 0 {
        match decode_expr_spec(entries[0].1) {
            Err(e) => {
            },
            Ok(x) => {
                lemma_upsert_preserves_unique(acc, entries[0].0, x);
                lemma_decode_vars_unique(entries.drop_first(), upsert_spec(acc, entries[0].0, x));
            },
        }
    }
}

/// Every mapping of a decoded template has unique keys, whatever the
/// document held: a repeated key in the input keeps one entry.
pub proof fn lemma_decoded_maps_have_unique_keys(j: JsonView)
    ensures
        (match decode_template_spec(j) {
            Ok(t) => (match t.parameters {
                Some(m) => keys_unique(m),
                None => true,
            }) && (match t.variables {
                Some(m) => keys_unique(m),
                None => true,
            }),
            Err(e) => true,
        }),
{
    match j {
        JsonView::Object(entries) => {
            match lookup_spec(entries, "parameters"@) {
                None => {
                },
                Some(pv) => match pv {
                    JsonView::Object(pes) => {
                        lemma_decode_params_unique(pes, Seq::empty());
                    },
                    _ => {
                    },
                },
            }
            match lookup_spec(entries, "variables"@) {
                None => {
                },
                Some(vv) => match vv {
                    JsonView::Object(ves) => {
                        lemma_decode_vars_unique(ves, Seq::empty());
                    },
                    _ => {
                    },
                },
            }
        },
        _ => {
        },
    }
}

} // verus!
