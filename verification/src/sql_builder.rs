//! The SQL builder turns a query into SQL with the help of a mapper.
//!
//! A build reads the tokens of the query once, from left to right. Filters
//! go to WHERE, those of aggregated fields to HAVING, and each of the two
//! clauses keeps its own account of the brackets and concatenations that are
//! still owed, so that a bracket shows up only in the clause that gets
//! something to put in it. After the scan the clauses ORDER BY, SELECT and
//! JOIN are put together, in this order. SELECT follows the order of the
//! mapped fields, never that of the query: a field that is not selected
//! leaves `null` in its place, and the columns of a row stay where they are.
//!
//! Every error ends the build: there is no partial SQL.

use crate::field_handler::{aux_view, outcome_view, sql_view, FieldHandler, SqlView};
use crate::query::{
    name_set, token_views, Concatenation, Field, FieldFilterView, FieldOrder, FieldView, Query, QueryToken,
    QueryTokenView, QueryView,
};
use crate::sql_builder_result::{
    concatenation_sql, parens, SqlBuilderResult, SqlBuilderResultView,
};
use crate::sql_mapper::{lemma_name_set_push, SqlMapper, SqlMapperView, SqlTarget, SqlTargetView};
use crate::text::{
    has_char, has_prefix, push_char, push_joined, trim_end, trimmed_end, join, lemma_views_add, lemma_views_push, same_text, starts_with, string_of,
    to_chars, views,
};
use vstd::prelude::*;

verus! {

/// Why a query could not be turned into SQL.
#[derive(Debug, Clone, PartialEq, Eq)]
pub enum SqlBuilderError {
    /// The query names a field that is not mapped. Holds a message with the
    /// field's name.
    FieldMissing(String),
    /// The field asks for a role that the caller does not have. Holds a
    /// message with the field's name.
    RoleRequired(String),
    /// The field's handler refuses the filter. Holds what the handler names:
    /// the function, or the argument.
    FilterInvalid(String),
}

/// The mathematical value of a [`SqlBuilderError`].
pub enum SqlBuilderErrorView {
    FieldMissing(Seq<char>),
    RoleRequired(Seq<char>),
    FilterInvalid(Seq<char>),
}

impl View for SqlBuilderError {
    type V = SqlBuilderErrorView;

    open spec fn view(&self) -> SqlBuilderErrorView {
        match self {
            SqlBuilderError::FieldMissing(s) => SqlBuilderErrorView::FieldMissing(s@),
            SqlBuilderError::RoleRequired(s) => SqlBuilderErrorView::RoleRequired(s@),
            SqlBuilderError::FilterInvalid(s) => SqlBuilderErrorView::FilterInvalid(s@),
        }
    }
}


/// Builds SQL from queries. The builder holds the mode of the build: whether
/// a count query is built, the path to which the build is restricted, the
/// roles of the caller, and the paths whose fields may be unknown.
#[derive(Debug, Clone, PartialEq, Eq)]
pub struct SqlBuilder {
    pub(crate) count_query: bool,
    pub(crate) subpath: String,
    pub(crate) roles: Vec<String>,
    pub(crate) joins: Vec<String>,
    pub(crate) ignored_paths: Vec<String>,
}

/// The mathematical value of a [`SqlBuilder`].
pub struct SqlBuilderView {
    /// A count query is built.
    pub count_query: bool,
    /// Only fields below this path are built; empty for no restriction.
    pub subpath: Seq<char>,
    /// The roles of the caller.
    pub roles: Set<Seq<char>>,
    /// The joins that were asked for by name.
    pub joins: Set<Seq<char>>,
    /// The paths below which an unknown field is passed over.
    pub ignored_paths: Set<Seq<char>>,
}

impl View for SqlBuilder {
    type V = SqlBuilderView;

    open(crate) spec fn view(&self) -> SqlBuilderView {
        SqlBuilderView {
            count_query: self.count_query,
            subpath: self.subpath@,
            roles: name_set(self.roles@),
            joins: name_set(self.joins@),
            ignored_paths: name_set(self.ignored_paths@),
        }
    }
}

/// One of the clauses WHERE and HAVING while it is built.
pub struct ClauseView {
    /// The clause so far.
    pub text: Seq<char>,
    /// The parameters of the clause so far.
    pub params: Seq<Seq<char>>,
    /// The clause holds something that the next filter must be joined to.
    pub need_concatenation: bool,
    /// The brackets that were opened and not yet written.
    pub pending_parens: nat,
    /// The concatenation of the bracket that was opened last.
    pub pending_concatenation: Option<Concatenation>,
}

impl ClauseView {
    /// A clause with nothing in it and nothing owed.
    pub open spec fn empty() -> Self {
        ClauseView {
            text: Seq::empty(),
            params: Seq::empty(),
            need_concatenation: false,
            pending_parens: 0,
            pending_concatenation: None,
        }
    }

    /// An opening bracket is owed, with its concatenation.
    pub open spec fn open_bracket(self, c: Concatenation) -> Self {
        ClauseView {
            pending_parens: self.pending_parens + 1,
            pending_concatenation: Some(c),
            ..self
        }
    }

    /// A closing bracket cancels an opening one that is still owed; where
    /// none is owed it is written.
    pub open spec fn close_bracket(self) -> Self {
        if self.pending_parens > 0 {
            ClauseView { pending_parens: (self.pending_parens - 1) as nat, ..self }
        } else {
            ClauseView { text: self.text + ")"@, need_concatenation: true, ..self }
        }
    }

    /// A filter is written: after the concatenation that joins it to what
    /// the clause holds, which is that of the bracket where brackets are
    /// owed and else the field's own, and after the brackets that are owed.
    pub open spec fn with_filter(self, c: Concatenation, sql: SqlView) -> Self {
        ClauseView {
            text: self.text + (if self.need_concatenation {
                concatenation_sql(
                    if self.pending_parens > 0 {
                        self.pending_concatenation
                    } else {
                        Some(c)
                    },
                )
            } else {
                Seq::empty()
            }) + parens(self.pending_parens) + sql.0,
            params: self.params + sql.1,
            need_concatenation: true,
            pending_parens: 0,
            ..self
        }
    }
}

/// What a build knows after reading some tokens of the query.
pub struct ScanView {
    pub where_clause: ClauseView,
    pub having_clause: ClauseView,
    /// The joins that handlers asked for, in the order of the fields.
    pub join_fragments: Seq<Seq<char>>,
    /// For each mapped field, whether the query selects it.
    pub selected: Seq<bool>,
    /// The path segments whose joins are needed.
    pub joins_needed: Set<Seq<char>>,
    /// The orderings asked for, each with the place of its field among the
    /// mapped fields, in the order of the query.
    pub ordering: Seq<(FieldOrder, int)>,
}

/// The parts of a name between its underscores.
pub open spec fn segments(name: Seq<char>) -> Seq<Seq<char>>
    decreases name.len(),
{
    if name.len() == 0 {
        seq![Seq::empty()]
    } else {
        let before = segments(name.drop_last());
        if name.last() == '_' {
            before.push(Seq::empty())
        } else {
            before.drop_last().push(before.last().push(name.last()))
        }
    }
}

/// The path segments of a field name: all its segments but the last.
pub open spec fn ancestors(name: Seq<char>) -> Set<Seq<char>> {
    Set::new(
        |s: Seq<char>|
            exists|k: int| 0 <= k < segments(name).len() - 1 && #[trigger] segments(name)[k] == s,
    )
}

/// The message of the error for a field whose roles the caller lacks.
pub open spec fn role_message(name: Seq<char>) -> Seq<char> {
    "Field requires a user role: '"@ + name + "'. "@
}

/// The message of the error for a field that is not mapped.
pub open spec fn missing_message(name: Seq<char>) -> Seq<char> {
    "Missing field: '"@ + name + "'. "@
}

/// The priority of an ordering.
pub open spec fn priority(order: FieldOrder) -> int {
    match order {
        FieldOrder::Asc(n) => n as int,
        FieldOrder::Desc(n) => n as int,
    }
}

/// The SQL word of an ordering, after a space.
pub open spec fn direction(order: FieldOrder) -> Seq<char> {
    match order {
        FieldOrder::Asc(_) => " ASC"@,
        FieldOrder::Desc(_) => " DESC"@,
    }
}

/// The orderings of priority `p`, in the order they were asked for.
pub open spec fn with_priority(ordering: Seq<(FieldOrder, int)>, p: int) -> Seq<(FieldOrder, int)>
    decreases ordering.len(),
{
    if ordering.len() == 0 {
        Seq::empty()
    } else if priority(ordering.last().0) == p {
        with_priority(ordering.drop_last(), p).push(ordering.last())
    } else {
        with_priority(ordering.drop_last(), p)
    }
}

/// The orderings with a priority of at most `p`: by priority, and those of
/// one priority in the order they were asked for.
pub open spec fn by_priority(ordering: Seq<(FieldOrder, int)>, p: int) -> Seq<(FieldOrder, int)>
    decreases p + 1,
{
    if p < 0 {
        Seq::empty()
    } else {
        by_priority(ordering, p - 1) + with_priority(ordering, p)
    }
}

/// The texts of a list of outcomes, or the first error among them.
pub open spec fn collect(items: Seq<Result<Seq<char>, SqlBuilderErrorView>>) -> Result<
    Seq<Seq<char>>,
    SqlBuilderErrorView,
>
    decreases items.len(),
{
    if items.len() == 0 {
        Ok(Seq::empty())
    } else {
        match collect(items.drop_last()) {
            Err(e) => Err(e),
            Ok(texts) => match items.last() {
                Ok(text) => Ok(texts.push(text)),
                Err(e) => Err(e),
            },
        }
    }
}

/// Whether a wildcard selects a mapped field. A wildcard with a path selects
/// the fields directly below the path, one without a path the fields at the
/// top, and the double wildcard, which has no path at all, every field; none
/// selects a field that is mapped to ignore wildcards.
pub open spec fn wildcard_selects<H>(target: SqlTargetView<H>, path: Option<Seq<char>>) -> bool {
    !target.options.ignore_wildcard && match path {
        None => true,
        Some(p) => if p.len() == 0 {
            !target.subfields
        } else {
            starts_with(target.name, p) && !target.name.skip(p.len() as int).contains('_')
        },
    }
}

impl<H: FieldHandler> SqlMapperView<H> {
    /// What is selected for the field at `i`: the expression that its
    /// handler gives, or `null` where the handler gives none. The handler
    /// gets the mapped expression, without parameters.
    pub open spec fn select_sql(self, i: int) -> Result<Seq<char>, SqlBuilderErrorView> {
        let t = self.fields[i];
        match t.handler.select_of((t.expression, Seq::empty()), Seq::empty()) {
            Err(e) => Err(e),
            Ok(Some(sql)) => Ok(sql.0),
            Ok(None) => Ok("null"@),
        }
    }

    /// The column of the field at `i` in SELECT: what is selected for the
    /// field where the query selects it or the mapper always does, and
    /// `null` where not.
    pub open spec fn select_item(self, selected: Seq<bool>, i: int) -> Result<
        Seq<char>,
        SqlBuilderErrorView,
    > {
        if selected[i] || self.fields[i].options.always_selected {
            self.select_sql(i)
        } else {
            Ok("null"@)
        }
    }

    /// Whether any field is selected, by the query or always.
    pub open spec fn any_selected(self, selected: Seq<bool>) -> bool {
        exists|i: int|
            0 <= i < self.fields.len() && (#[trigger] selected[i]
                || self.fields[i].options.always_selected)
    }

    /// The columns of SELECT, one for each mapped field and in their order.
    pub open spec fn select_items(self, selected: Seq<bool>) -> Result<
        Seq<Seq<char>>,
        SqlBuilderErrorView,
    > {
        collect(Seq::new(self.fields.len(), |i: int| self.select_item(selected, i)))
    }

    /// One item of ORDER BY: the expression that the handler selects for
    /// the field, nothing where it selects none, and the direction.
    pub open spec fn order_item(self, entry: (FieldOrder, int)) -> Result<
        Seq<char>,
        SqlBuilderErrorView,
    > {
        let t = self.fields[entry.1];
        match t.handler.select_of((t.expression, Seq::empty()), Seq::empty()) {
            Err(e) => Err(e),
            Ok(Some(sql)) => Ok(sql.0 + direction(entry.0)),
            Ok(None) => Ok(direction(entry.0)),
        }
    }

    /// The items of ORDER BY: by ascending priority, and those of one
    /// priority in the order of the query.
    pub open spec fn order_items(self, ordering: Seq<(FieldOrder, int)>) -> Result<
        Seq<Seq<char>>,
        SqlBuilderErrorView,
    > {
        let sorted = by_priority(ordering, 255);
        collect(Seq::new(sorted.len(), |k: int| self.order_item(sorted[k])))
    }

    /// The path segments of the first `n` fields that a wildcard selects.
    pub open spec fn wildcard_joins(self, path: Option<Seq<char>>, n: int) -> Set<Seq<char>> {
        Set::new(
            |s: Seq<char>|
                exists|i: int|
                    0 <= i < n && i < self.fields.len() && wildcard_selects(
                        #[trigger] self.fields[i],
                        path,
                    ) && self.fields[i].subfields && ancestors(self.fields[i].name).contains(s),
        )
    }

    /// The path segments of the first `n` fields that are always selected.
    pub open spec fn preselected_joins(self, n: int) -> Set<Seq<char>> {
        Set::new(
            |s: Seq<char>|
                exists|i: int|
                    0 <= i < n && i < self.fields.len() && (
                    #[trigger] self.fields[i]).options.always_selected && self.fields[i].subfields
                        && ancestors(self.fields[i].name).contains(s),
        )
    }

    /// The join clauses of the first `n` mapped joins whose path segment is
    /// needed, in the order the joins were mapped.
    pub open spec fn needed_joins(self, needed: Set<Seq<char>>, n: int) -> Seq<Seq<char>>
        decreases n,
    {
        if n <= 0 || n > self.joins.len() {
            Seq::empty()
        } else if needed.contains(self.joins[n - 1].path) {
            self.needed_joins(needed, n - 1).push(self.joins[n - 1].join_clause)
        } else {
            self.needed_joins(needed, n - 1)
        }
    }

    /// What a build knows before it reads the first token.
    pub open spec fn initial_scan(self) -> ScanView {
        ScanView {
            where_clause: ClauseView::empty(),
            having_clause: ClauseView::empty(),
            join_fragments: Seq::empty(),
            selected: Seq::new(self.fields.len(), |i: int| false),
            joins_needed: Set::empty(),
            ordering: Seq::empty(),
        }
    }
}

impl SqlBuilderView {
    /// Whether the caller has every role that a field asks for. A field
    /// that asks for none is open to every caller.
    pub open spec fn roles_valid(self, required: Set<Seq<char>>) -> bool {
        required.subset_of(self.roles)
    }

    /// Whether a field name lies below one of the ignored paths.
    pub open spec fn path_ignored(self, name: Seq<char>) -> bool {
        exists|p: Seq<char>| #[trigger] self.ignored_paths.contains(p) && starts_with(name, p)
    }

    /// Whether a field of the query lies within the path that the build is
    /// restricted to.
    pub open spec fn in_subpath(self, name: Seq<char>) -> bool {
        self.subpath.len() == 0 || starts_with(name, self.subpath)
    }

    /// The name under which a field of the query is mapped: its name without
    /// the path that the build is restricted to.
    pub open spec fn local_name(self, name: Seq<char>) -> Seq<char> {
        name.skip(self.subpath.len() as int)
    }

    /// A wildcard selects the mapped fields that it covers, and needs the
    /// joins of their paths.
    pub open spec fn wildcard_step<H: FieldHandler>(
        self,
        m: SqlMapperView<H>,
        st: ScanView,
        path: Option<Seq<char>>,
    ) -> ScanView {
        ScanView {
            selected: Seq::new(
                m.fields.len(),
                |i: int| st.selected[i] || wildcard_selects(m.fields[i], path),
            ),
            joins_needed: st.joins_needed.union(m.wildcard_joins(path, m.fields.len() as int)),
            ..st
        }
    }

    /// The filter of a field is written to HAVING where the field is an
    /// aggregation and to WHERE where not, as its handler words it; a
    /// handler that gives no condition leaves the clauses as they are. Then
    /// the join that the handler asks for is noted.
    pub open spec fn filter_step<H: FieldHandler>(
        self,
        t: SqlTargetView<H>,
        st: ScanView,
        f: FieldView,
        filter: FieldFilterView,
    ) -> Result<ScanView, SqlBuilderErrorView> {
        match t.handler.filter_of((t.expression, Seq::empty()), filter, Seq::empty()) {
            Err(e) => Err(e),
            Ok(condition) => {
                let st1 = match condition {
                    Some(sql) => if f.aggregation {
                        ScanView {
                            having_clause: st.having_clause.with_filter(f.concatenation, sql),
                            ..st
                        }
                    } else {
                        ScanView {
                            where_clause: st.where_clause.with_filter(f.concatenation, sql),
                            ..st
                        }
                    },
                    None => st,
                };
                match t.handler.join_of(Seq::empty()) {
                    Err(e) => Err(e),
                    Ok(Some(sql)) => Ok(
                        ScanView { join_fragments: st1.join_fragments.push(sql.0), ..st1 },
                    ),
                    Ok(None) => Ok(st1),
                }
            },
        }
    }

    /// A field of the query that is mapped at `i`: the caller must have its
    /// roles; in a count query a field that takes no part is passed over;
    /// else the field is selected unless it is hidden, the joins of its path
    /// are needed, its filter is written and its ordering noted.
    pub open spec fn mapped_field_step<H: FieldHandler>(
        self,
        m: SqlMapperView<H>,
        st: ScanView,
        f: FieldView,
        i: int,
    ) -> Result<ScanView, SqlBuilderErrorView> {
        let t = m.fields[i];
        if !self.roles_valid(t.options.roles) {
            Err(SqlBuilderErrorView::RoleRequired(role_message(t.name)))
        } else if self.count_query && !t.options.count_query {
            Ok(st)
        } else {
            let st1 = ScanView {
                selected: if f.hidden {
                    st.selected
                } else {
                    st.selected.update(i, true)
                },
                joins_needed: if t.subfields {
                    st.joins_needed.union(ancestors(t.name))
                } else {
                    st.joins_needed
                },
                ..st
            };
            let filtered = match f.filter {
                Some(filter) => self.filter_step(t, st1, f, filter),
                None => Ok(st1),
            };
            match filtered {
                Err(e) => Err(e),
                Ok(st2) => match f.order {
                    Some(order) => Ok(ScanView { ordering: st2.ordering.push((order, i)), ..st2 }),
                    None => Ok(st2),
                },
            }
        }
    }

    /// A field of the query: one outside the path of the build is passed
    /// over; one that is not mapped is an error, unless its name spells a
    /// path and lies below an ignored path.
    pub open spec fn field_step<H: FieldHandler>(
        self,
        m: SqlMapperView<H>,
        st: ScanView,
        f: FieldView,
    ) -> Result<ScanView, SqlBuilderErrorView> {
        if !self.in_subpath(f.name) {
            Ok(st)
        } else {
            match m.field_index(self.local_name(f.name)) {
                Some(i) => self.mapped_field_step(m, st, f, i),
                None => if f.name.contains('_') && self.path_ignored(f.name) {
                    Ok(st)
                } else {
                    Err(SqlBuilderErrorView::FieldMissing(missing_message(f.name)))
                },
            }
        }
    }

    /// What a build knows after one more token. A predicate has nothing
    /// that resolves it in a mapper and leaves everything as it is.
    pub open spec fn step<H: FieldHandler>(
        self,
        m: SqlMapperView<H>,
        st: ScanView,
        t: QueryTokenView,
    ) -> Result<ScanView, SqlBuilderErrorView> {
        match t {
            QueryTokenView::LeftBracket(c) => Ok(
                ScanView {
                    where_clause: st.where_clause.open_bracket(c),
                    having_clause: st.having_clause.open_bracket(c),
                    ..st
                },
            ),
            QueryTokenView::RightBracket => Ok(
                ScanView {
                    where_clause: st.where_clause.close_bracket(),
                    having_clause: st.having_clause.close_bracket(),
                    ..st
                },
            ),
            QueryTokenView::Wildcard(w) => Ok(self.wildcard_step(m, st, Some(w.path))),
            QueryTokenView::DoubleWildcard(_) => Ok(self.wildcard_step(m, st, None)),
            QueryTokenView::Field(f) => self.field_step(m, st, f),
            QueryTokenView::Predicate(_) => Ok(st),
        }
    }

    /// What a build knows after the given tokens, or the error of the first
    /// token that has one.
    pub open spec fn scan<H: FieldHandler>(
        self,
        m: SqlMapperView<H>,
        tokens: Seq<QueryTokenView>,
    ) -> Result<ScanView, SqlBuilderErrorView>
        decreases tokens.len(),
    {
        if tokens.len() == 0 {
            Ok(m.initial_scan())
        } else {
            match self.scan(m, tokens.drop_last()) {
                Err(e) => Err(e),
                Ok(st) => self.step(m, st, tokens.last()),
            }
        }
    }

    /// The result of a build: the clauses WHERE and HAVING as the scan left
    /// them; ORDER BY and SELECT as lists with `, ` between the items; JOIN
    /// as the joins that handlers asked for and then the mapped joins that
    /// the selected and the always selected fields need, with a space
    /// between them. JOIN and ORDER BY end without white space. An error of
    /// the scan comes first, then one of ORDER BY, then one of SELECT.
    pub open spec fn build<H: FieldHandler>(self, m: SqlMapperView<H>, q: QueryView) -> Result<
        SqlBuilderResultView,
        SqlBuilderErrorView,
    > {
        match self.scan(m, q.tokens) {
            Err(e) => Err(e),
            Ok(st) => match m.order_items(st.ordering) {
                Err(e) => Err(e),
                Ok(order) => match m.select_items(st.selected) {
                    Err(e) => Err(e),
                    Ok(select) => Ok(
                        SqlBuilderResultView {
                            table: m.table,
                            any_selected: m.any_selected(st.selected),
                            distinct: q.distinct,
                            join_clause: trim_end(
                                join(
                                    st.join_fragments + m.needed_joins(
                                        st.joins_needed.union(
                                            m.preselected_joins(m.fields.len() as int),
                                        ),
                                        m.joins.len() as int,
                                    ),
                                    " "@,
                                ),
                            ),
                            select_clause: join(select, ", "@),
                            where_clause: st.where_clause.text,
                            order_by_clause: trim_end(join(order, ", "@)),
                            having_clause: st.having_clause.text,
                            where_params: st.where_clause.params,
                            having_params: st.having_clause.params,
                        },
                    ),
                },
            },
        }
    }
}


/// One of the clauses WHERE and HAVING while it is built.
struct Clause {
    text: String,
    params: Vec<String>,
    need_concatenation: bool,
    pending_parens: usize,
    pending_concatenation: Option<Concatenation>,
}

impl View for Clause {
    type V = ClauseView;

    closed spec fn view(&self) -> ClauseView {
        ClauseView {
            text: self.text@,
            params: views(self.params@),
            need_concatenation: self.need_concatenation,
            pending_parens: self.pending_parens as nat,
            pending_concatenation: self.pending_concatenation,
        }
    }
}

impl Clause {
    fn new() -> (c: Self)
        ensures
            c@ == ClauseView::empty(),
    {
        let c = Clause {
            text: String::new(),
            params: Vec::new(),
            need_concatenation: false,
            pending_parens: 0,
            pending_concatenation: None,
        };
        assert(views(c.params@) =~= Seq::<Seq<char>>::empty());
        c
    }

    fn open_bracket(&mut self, c: Concatenation)
        requires
            old(self)@.pending_parens < usize::MAX,
        ensures
            final(self)@ == old(self)@.open_bracket(c),
    {
        self.pending_parens = self.pending_parens + 1;
        self.pending_concatenation = Some(c);
    }

    fn close_bracket(&mut self)
        ensures
            final(self)@ == old(self)@.close_bracket(),
    {
        if self.pending_parens > 0 {
            self.pending_parens = self.pending_parens - 1;
        } else {
            self.text.append(")");
            self.need_concatenation = true;
        }
    }

    fn add_filter(&mut self, c: Concatenation, sql: (String, Vec<String>))
        ensures
            final(self)@ == old(self)@.with_filter(c, (sql.0@, views(sql.1@))),
    {
        let (fragment, mut params) = sql;
        if self.need_concatenation {
            if self.pending_parens > 0 {
                SqlBuilderResult::push_concatenation(&mut self.text, &self.pending_concatenation);
            } else {
                SqlBuilderResult::push_concatenation(&mut self.text, &Some(c));
            }
        }
        SqlBuilderResult::push_pending_parens(&mut self.text, self.pending_parens);
        SqlBuilderResult::push_filter(&mut self.text, fragment.as_str());
        proof {
            lemma_views_add(self.params@, params@);
        }
        self.params.append(&mut params);
        self.need_concatenation = true;
        self.pending_parens = 0;
        assert(self@.text =~= old(self)@.with_filter(c, (sql.0@, views(sql.1@))).text);
    }
}

/// Whether `name` is among `names`.
fn contains_name(names: &Vec<String>, name: &str) -> (b: bool)
    ensures
        b == name_set(names@).contains(name@),
{
    let mut i: usize = 0;
    while i < names.len()
        invariant
            i <= names.len(),
            forall|j: int| 0 <= j < i ==> (#[trigger] names@[j])@ != name@,
        decreases names.len() - i,
    {
        if same_text(names[i].as_str(), name) {
            return true;
        }
        i = i + 1;
    }
    false
}


/// The names of a list with one more name.
fn push_name(names: &mut Vec<String>, name: String)
    ensures
        name_set(final(names)@) == name_set(old(names)@).insert(name@),
{
    proof {
        lemma_name_set_push(names@, name);
    }
    names.push(name);
}

/// Notes the path segments of `name` as needed.
fn mark_ancestors(needed: &mut Vec<String>, name: &str)
    ensures
        name_set(final(needed)@) == name_set(old(needed)@).union(ancestors(name@)),
{
    let chars = to_chars(name);
    let mut current = String::new();
    let mut i: usize = 0;
    let ghost mut done: Set<Seq<char>> = Set::empty();
    assert(chars@.take(0) =~= Seq::<char>::empty());
    assert(name_set(needed@) =~= name_set(old(needed)@).union(done));
    while i < chars.len()
        invariant
            i <= chars.len(),
            chars@ == name@,
            segments(chars@.take(i as int)).len() > 0,
            current@ == segments(chars@.take(i as int)).last(),
            done =~= Set::new(
                |s: Seq<char>|
                    exists|k: int|
                        0 <= k < segments(chars@.take(i as int)).len() - 1 && #[trigger] segments(
                            chars@.take(i as int),
                        )[k] == s,
            ),
            name_set(needed@) == name_set(old(needed)@).union(done),
        decreases chars.len() - i,
    {
        let ghost before = segments(chars@.take(i as int));
        let ghost after = segments(chars@.take(i + 1));
        assert(chars@.take(i + 1).drop_last() =~= chars@.take(i as int));
        if chars[i] == '_' {
            assert(after =~= before.push(Seq::empty()));
            let ghost seg = current@;
            push_name(needed, current);
            current = String::new();
            proof {
                let grown = done.insert(seg);
                assert forall|s: Seq<char>| grown.contains(s) <==> (exists|k: int|
                    0 <= k < after.len() - 1 && #[trigger] after[k] == s) by {
                    if grown.contains(s) {
                        if s == seg {
                            assert(after[before.len() - 1] == s);
                        } else {
                            let k = choose|k: int|
                                0 <= k < before.len() - 1 && #[trigger] before[k] == s;
                            assert(after[k] == s);
                        }
                    }
                    if exists|k: int| 0 <= k < after.len() - 1 && #[trigger] after[k] == s {
                        let k = choose|k: int| 0 <= k < after.len() - 1 && #[trigger] after[k] == s;
                        if k < before.len() - 1 {
                            assert(before[k] == s);
                        }
                    }
                }
                assert(name_set(needed@) =~= name_set(old(needed)@).union(grown));
                done = grown;
            }
        } else {
            assert(after =~= before.drop_last().push(before.last().push(chars@[i as int])));
            push_char(&mut current, chars[i]);
            proof {
                assert forall|s: Seq<char>| done.contains(s) <==> (exists|k: int|
                    0 <= k < after.len() - 1 && #[trigger] after[k] == s) by {
                    if done.contains(s) {
                        let k = choose|k: int|
                            0 <= k < before.len() - 1 && #[trigger] before[k] == s;
                        assert(after[k] == s);
                    }
                    if exists|k: int| 0 <= k < after.len() - 1 && #[trigger] after[k] == s {
                        let k = choose|k: int| 0 <= k < after.len() - 1 && #[trigger] after[k] == s;
                        assert(before[k] == s);
                    }
                }
            }
        }
        i = i + 1;
    }
    assert(chars@.take(chars.len() as int) =~= chars@);
    assert(done =~= ancestors(name@));
}

impl SqlBuilder {
    /// A builder for plain queries: no count query, no restriction to a
    /// path, a caller without roles, no ignored paths.
    pub fn new() -> (b: Self)
        ensures
            b@ == (SqlBuilderView {
                count_query: false,
                subpath: Seq::empty(),
                roles: Set::empty(),
                joins: Set::empty(),
                ignored_paths: Set::empty(),
            }),
    {
        let b = SqlBuilder {
            count_query: false,
            subpath: String::new(),
            roles: Vec::new(),
            joins: Vec::new(),
            ignored_paths: Vec::new(),
        };
        assert(b@.roles =~= Set::empty());
        assert(b@.joins =~= Set::empty());
        assert(b@.ignored_paths =~= Set::empty());
        b
    }

    /// Passes over unknown fields below `path`, which are left to a build
    /// of their own.
    pub fn ignore_path(self, path: &str) -> (b: Self)
        ensures
            b@ == (SqlBuilderView { ignored_paths: self@.ignored_paths.insert(path@), ..self@ }),
    {
        let mut b = self;
        push_name(&mut b.ignored_paths, String::from_str(path));
        b
    }

    /// Gives the caller a role.
    pub fn for_role(self, role: &str) -> (b: Self)
        ensures
            b@ == (SqlBuilderView { roles: self@.roles.insert(role@), ..self@ }),
    {
        let mut b = self;
        push_name(&mut b.roles, String::from_str(role));
        b
    }

    /// Notes a join by name. The note is kept with the builder; a build
    /// takes its joins from the fields of the query.
    pub fn with_join(self, join: &str) -> (b: Self)
        ensures
            b@ == (SqlBuilderView { joins: self@.joins.insert(join@), ..self@ }),
    {
        let mut b = self;
        push_name(&mut b.joins, String::from_str(join));
        b
    }

    /// Whether the proposed roles hold every required role. No role
    /// required is always met; a role required is never met by no roles.
    pub fn validate_roles(proposed: &Vec<String>, required: &Vec<String>) -> (valid: bool)
        ensures
            valid == name_set(required@).subset_of(name_set(proposed@)),
    {
        let mut i: usize = 0;
        while i < required.len()
            invariant
                i <= required.len(),
                forall|j: int|
                    0 <= j < i ==> name_set(proposed@).contains((#[trigger] required@[j])@),
            decreases required.len() - i,
        {
            if !contains_name(proposed, required[i].as_str()) {
                assert(name_set(required@).contains(required@[i as int]@));
                return false;
            }
            i = i + 1;
        }
        true
    }

    /// Whether `fieldname` lies below one of the ignored paths.
    pub fn path_ignored(&self, fieldname: &str) -> (ignored: bool)
        ensures
            ignored == self@.path_ignored(fieldname@),
    {
        let name = to_chars(fieldname);
        let mut i: usize = 0;
        while i < self.ignored_paths.len()
            invariant
                i <= self.ignored_paths.len(),
                name@ == fieldname@,
                forall|j: int|
                    0 <= j < i ==> !starts_with(name@, (#[trigger] self.ignored_paths@[j])@),
            decreases self.ignored_paths.len() - i,
        {
            let path = to_chars(self.ignored_paths[i].as_str());
            if has_prefix(&name, &path) {
                assert(self@.ignored_paths.contains(self.ignored_paths@[i as int]@));
                return true;
            }
            i = i + 1;
        }
        false
    }
}


/// What a build knows after reading some tokens of the query.
struct Scan {
    where_clause: Clause,
    having_clause: Clause,
    join_fragments: Vec<String>,
    selected: Vec<bool>,
    joins_needed: Vec<String>,
    ordering: Vec<(FieldOrder, usize)>,
}

/// The orderings with the places of their fields as numbers.
spec fn ordering_view(ordering: Seq<(FieldOrder, usize)>) -> Seq<(FieldOrder, int)> {
    Seq::new(ordering.len(), |k: int| (ordering[k].0, ordering[k].1 as int))
}

impl View for Scan {
    type V = ScanView;

    closed spec fn view(&self) -> ScanView {
        ScanView {
            where_clause: self.where_clause@,
            having_clause: self.having_clause@,
            join_fragments: views(self.join_fragments@),
            selected: self.selected@,
            joins_needed: name_set(self.joins_needed@),
            ordering: ordering_view(self.ordering@),
        }
    }
}

impl Scan {
    /// The scan has a mark for each mapped field, orders by mapped fields
    /// only, and owes fewer brackets than `bound`.
    spec fn fits<H>(&self, mapper: &SqlMapper<H>, bound: int) -> bool {
        &&& self.selected@.len() == mapper.fields@.len()
        &&& forall|k: int|
            0 <= k < self.ordering@.len() ==> (#[trigger] self.ordering@[k]).1
                < mapper.fields@.len()
        &&& self.where_clause.pending_parens <= bound
        &&& self.having_clause.pending_parens <= bound
    }

    fn new<H: FieldHandler>(mapper: &SqlMapper<H>) -> (st: Self)
        ensures
            st@ == mapper@.initial_scan(),
            st.fits(mapper, 0),
    {
        let mut selected: Vec<bool> = Vec::new();
        let mut i: usize = 0;
        while i < mapper.fields.len()
            invariant
                i <= mapper.fields.len(),
                selected@.len() == i,
                forall|k: int| 0 <= k < i ==> !selected@[k],
            decreases mapper.fields.len() - i,
        {
            selected.push(false);
            i = i + 1;
        }
        let st = Scan {
            where_clause: Clause::new(),
            having_clause: Clause::new(),
            join_fragments: Vec::new(),
            selected,
            joins_needed: Vec::new(),
            ordering: Vec::new(),
        };
        assert(st@.selected =~= mapper@.initial_scan().selected);
        assert(st@.join_fragments =~= Seq::<Seq<char>>::empty());
        assert(st@.joins_needed =~= Set::<Seq<char>>::empty());
        assert(st@.ordering =~= Seq::<(FieldOrder, int)>::empty());
        st
    }
}

/// The value of an optional path.
spec fn path_view(path: Option<Vec<char>>) -> Option<Seq<char>> {
    match path {
        Some(p) => Some(p@),
        None => None,
    }
}

/// Whether `c` occurs in `v` at `from` or after it.
fn has_char_from(v: &Vec<char>, from: usize, c: char) -> (b: bool)
    requires
        from <= v.len(),
    ensures
        b == v@.skip(from as int).contains(c),
{
    let mut i: usize = from;
    while i < v.len()
        invariant
            from <= i <= v.len(),
            forall|j: int| 0 <= j < i - from ==> v@.skip(from as int)[j] != c,
        decreases v.len() - i,
    {
        if v[i] == c {
            assert(v@.skip(from as int)[i - from] == c);
            return true;
        }
        i = i + 1;
    }
    false
}

/// Whether a wildcard selects the field at `i`.
fn wildcard_covers<H: FieldHandler>(mapper: &SqlMapper<H>, i: usize, path: &Option<Vec<char>>) -> (b:
    bool)
    requires
        i < mapper.fields@.len(),
    ensures
        b == wildcard_selects(mapper@.fields[i as int], path_view(*path)),
{
    let target = &mapper.fields[i];
    if target.options.ignore_wildcard {
        return false;
    }
    match path {
        None => true,
        Some(p) => {
            if p.len() == 0 {
                !target.subfields
            } else {
                let name = to_chars(target.name.as_str());
                has_prefix(&name, p) && !has_char_from(&name, p.len(), '_')
            }
        },
    }
}

impl SqlBuilder {
    /// Selects the fields that a wildcard covers.
    fn wildcard_step<H: FieldHandler>(&self, mapper: &SqlMapper<H>, st: Scan, path: Option<Vec<char>>) -> (r:
        Scan)
        requires
            st.selected@.len() == mapper.fields@.len(),
        ensures
            r@ == self@.wildcard_step(mapper@, st@, path_view(path)),
            r.selected@.len() == mapper.fields@.len(),
            r.ordering == st.ordering,
            r.where_clause == st.where_clause,
            r.having_clause == st.having_clause,
    {
        let ghost m = mapper@;
        let ghost pv = path_view(path);
        let mut r = st;
        let mut i: usize = 0;
        assert(m.wildcard_joins(pv, 0) =~= Set::<Seq<char>>::empty());
        assert(name_set(r.joins_needed@) =~= st@.joins_needed.union(m.wildcard_joins(pv, 0)));
        while i < mapper.fields.len()
            invariant
                i <= mapper.fields.len(),
                m == mapper@,
                pv == path_view(path),
                r.selected@.len() == mapper.fields@.len(),
                st.selected@.len() == mapper.fields@.len(),
                forall|k: int|
                    0 <= k < i ==> r.selected@[k] == (st.selected@[k] || wildcard_selects(
                        m.fields[k],
                        pv,
                    )),
                forall|k: int| i <= k < mapper.fields@.len() ==> r.selected@[k] == st.selected@[k],
                name_set(r.joins_needed@) == st@.joins_needed.union(
                    m.wildcard_joins(pv, i as int),
                ),
                r.ordering == st.ordering,
                r.where_clause == st.where_clause,
                r.having_clause == st.having_clause,
                r.join_fragments == st.join_fragments,
            decreases mapper.fields.len() - i,
        {
            let covered = wildcard_covers(mapper, i, &path);
            let ghost before = name_set(r.joins_needed@);
            if covered {
                r.selected.set(i, true);
                if mapper.fields[i].subfields {
                    mark_ancestors(&mut r.joins_needed, mapper.fields[i].name.as_str());
                }
            }
            proof {
                let add = if covered && m.fields[i as int].subfields {
                    ancestors(m.fields[i as int].name)
                } else {
                    Set::<Seq<char>>::empty()
                };
                assert(name_set(r.joins_needed@) =~= before.union(add));
                assert forall|s: Seq<char>|
                    m.wildcard_joins(pv, i + 1).contains(s) <==> m.wildcard_joins(
                        pv,
                        i as int,
                    ).union(add).contains(s) by {
                    if m.wildcard_joins(pv, i + 1).contains(s) {
                        let k = choose|k: int|
                            0 <= k < i + 1 && k < m.fields.len() && wildcard_selects(
                                #[trigger] m.fields[k],
                                pv,
                            ) && m.fields[k].subfields && ancestors(m.fields[k].name).contains(s);
                        if k < i {
                            assert(m.wildcard_joins(pv, i as int).contains(s));
                        }
                    }
                    if add.contains(s) {
                        assert(wildcard_selects(m.fields[i as int], pv));
                    }
                    if m.wildcard_joins(pv, i as int).contains(s) {
                        let k = choose|k: int|
                            0 <= k < i && k < m.fields.len() && wildcard_selects(
                                #[trigger] m.fields[k],
                                pv,
                            ) && m.fields[k].subfields && ancestors(m.fields[k].name).contains(s);
                        assert(wildcard_selects(m.fields[k], pv));
                    }
                }
                assert(m.wildcard_joins(pv, i + 1) =~= m.wildcard_joins(pv, i as int).union(add));
                assert(name_set(r.joins_needed@) =~= st@.joins_needed.union(
                    m.wildcard_joins(pv, i + 1),
                ));
            }
            i = i + 1;
        }
        assert(r@.selected =~= self@.wildcard_step(m, st@, pv).selected);
        r
    }
}


/// The handler that serves the field at `i`.
fn handler_of<H: FieldHandler>(mapper: &SqlMapper<H>, i: usize) -> (h: &H)
    requires
        i < mapper.fields@.len(),
    ensures
        *h == mapper@.fields[i as int].handler,
{
    match &mapper.fields[i].handler {
        Some(h) => h,
        None => &mapper.handler,
    }
}

/// The mapped expression of the field at `i`, without parameters.
fn expression_of<H: FieldHandler>(mapper: &SqlMapper<H>, i: usize) -> (sql: (String, Vec<String>))
    requires
        i < mapper.fields@.len(),
    ensures
        sql_view(sql) == (mapper@.fields[i as int].expression, Seq::<Seq<char>>::empty()),
{
    let params: Vec<String> = Vec::new();
    assert(views(params@) =~= Seq::<Seq<char>>::empty());
    (mapper.fields[i].expression.clone(), params)
}

/// No auxiliary parameters.
fn no_aux() -> (aux: Vec<(String, String)>)
    ensures
        aux_view(aux@) == Seq::<(Seq<char>, Seq<char>)>::empty(),
{
    let aux: Vec<(String, String)> = Vec::new();
    assert(aux_view(aux@) =~= Seq::<(Seq<char>, Seq<char>)>::empty());
    aux
}

/// `prefix`, `name` and `suffix` in one text.
fn message(prefix: &str, name: &str, suffix: &str) -> (s: String)
    ensures
        s@ == prefix@ + name@ + suffix@,
{
    let mut s = String::from_str(prefix);
    s.append(name);
    s.append(suffix);
    s
}

impl SqlBuilder {
    /// Writes the filter of a field with the help of its handler.
    fn filter_step<H: FieldHandler>(
        &self,
        mapper: &SqlMapper<H>,
        st: Scan,
        field: &Field,
        filter: &crate::query::FieldFilter,
        i: usize,
        Ghost(bound): Ghost<int>,
    ) -> (r: Result<Scan, SqlBuilderError>)
        requires
            i < mapper.fields@.len(),
            st.fits(mapper, bound),
        ensures
            match r {
                Ok(n) => self@.filter_step(mapper@.fields[i as int], st@, field@, filter@) == Ok::<
                    ScanView,
                    SqlBuilderErrorView,
                >(n@) && n.fits(mapper, bound),
                Err(e) => self@.filter_step(mapper@.fields[i as int], st@, field@, filter@) == Err::<
                    ScanView,
                    SqlBuilderErrorView,
                >(e@),
            },
    {
        let mut st = st;
        let handler = handler_of(mapper, i);
        let aux = no_aux();
        match handler.build_filter(expression_of(mapper, i), filter, &aux) {
            Err(e) => {
                return Err(e);
            },
            Ok(Some(sql)) => {
                if field.aggregation {
                    st.having_clause.add_filter(field.concatenation, sql);
                } else {
                    st.where_clause.add_filter(field.concatenation, sql);
                }
            },
            Ok(None) => {},
        }
        match handler.build_join(&aux) {
            Err(e) => Err(e),
            Ok(Some(sql)) => {
                proof {
                    lemma_views_push(st.join_fragments@, sql.0);
                }
                st.join_fragments.push(sql.0);
                Ok(st)
            },
            Ok(None) => Ok(st),
        }
    }

    /// Reads a field of the query that is mapped at `i`.
    fn mapped_field_step<H: FieldHandler>(
        &self,
        mapper: &SqlMapper<H>,
        st: Scan,
        field: &Field,
        i: usize,
        Ghost(bound): Ghost<int>,
    ) -> (r: Result<Scan, SqlBuilderError>)
        requires
            i < mapper.fields@.len(),
            st.fits(mapper, bound),
        ensures
            match r {
                Ok(n) => self@.mapped_field_step(mapper@, st@, field@, i as int) == Ok::<
                    ScanView,
                    SqlBuilderErrorView,
                >(n@) && n.fits(mapper, bound),
                Err(e) => self@.mapped_field_step(mapper@, st@, field@, i as int) == Err::<
                    ScanView,
                    SqlBuilderErrorView,
                >(e@),
            },
    {
        let target = &mapper.fields[i];
        if !Self::validate_roles(&self.roles, &target.options.roles) {
            return Err(
                SqlBuilderError::RoleRequired(
                    message("Field requires a user role: '", target.name.as_str(), "'. "),
                ),
            );
        }
        if self.count_query && !target.options.count_query {
            return Ok(st);
        }
        let mut st = st;
        if !field.hidden {
            st.selected.set(i, true);
        }
        if target.subfields {
            mark_ancestors(&mut st.joins_needed, target.name.as_str());
        }
        let filtered = match &field.filter {
            Some(filter) => self.filter_step(mapper, st, field, filter, i, Ghost(bound)),
            None => Ok(st),
        };
        match filtered {
            Err(e) => Err(e),
            Ok(st2) => {
                let mut st2 = st2;
                match field.order {
                    Some(order) => {
                        st2.ordering.push((order, i));
                        assert(st2@.ordering =~= ordering_view(filtered->Ok_0.ordering@).push(
                            (order, i as int),
                        ));
                    },
                    None => {},
                }
                Ok(st2)
            },
        }
    }

    /// Reads a field of the query.
    fn field_step<H: FieldHandler>(
        &self,
        mapper: &SqlMapper<H>,
        st: Scan,
        field: &Field,
        Ghost(bound): Ghost<int>,
    ) -> (r: Result<Scan, SqlBuilderError>)
        requires
            st.fits(mapper, bound),
        ensures
            match r {
                Ok(n) => self@.field_step(mapper@, st@, field@) == Ok::<
                    ScanView,
                    SqlBuilderErrorView,
                >(n@) && n.fits(mapper, bound),
                Err(e) => self@.field_step(mapper@, st@, field@) == Err::<
                    ScanView,
                    SqlBuilderErrorView,
                >(e@),
            },
    {
        let name = to_chars(field.name.as_str());
        let subpath = to_chars(self.subpath.as_str());
        if subpath.len() > 0 && !has_prefix(&name, &subpath) {
            return Ok(st);
        }
        let local = string_of(&name, subpath.len(), name.len());
        assert(local@ =~= self@.local_name(field@.name));
        match mapper.field_index(local.as_str()) {
            Some(i) => self.mapped_field_step(mapper, st, field, i, Ghost(bound)),
            None => {
                if has_char(&name, '_') && self.path_ignored(field.name.as_str()) {
                    Ok(st)
                } else {
                    Err(
                        SqlBuilderError::FieldMissing(
                            message("Missing field: '", field.name.as_str(), "'. "),
                        ),
                    )
                }
            },
        }
    }

    /// Reads one token of the query.
    fn step<H: FieldHandler>(
        &self,
        mapper: &SqlMapper<H>,
        st: Scan,
        token: &QueryToken,
        Ghost(bound): Ghost<int>,
    ) -> (r: Result<Scan, SqlBuilderError>)
        requires
            st.fits(mapper, bound),
            bound < usize::MAX,
        ensures
            match r {
                Ok(n) => self@.step(mapper@, st@, token@) == Ok::<ScanView, SqlBuilderErrorView>(
                    n@,
                ) && n.fits(mapper, bound + 1),
                Err(e) => self@.step(mapper@, st@, token@) == Err::<ScanView, SqlBuilderErrorView>(
                    e@,
                ),
            },
    {
        match token {
            QueryToken::LeftBracket(c) => {
                let mut st = st;
                st.where_clause.open_bracket(*c);
                st.having_clause.open_bracket(*c);
                Ok(st)
            },
            QueryToken::RightBracket => {
                let mut st = st;
                st.where_clause.close_bracket();
                st.having_clause.close_bracket();
                Ok(st)
            },
            QueryToken::Wildcard(w) => {
                Ok(self.wildcard_step(mapper, st, Some(to_chars(w.path.as_str()))))
            },
            QueryToken::DoubleWildcard(_) => Ok(self.wildcard_step(mapper, st, None)),
            QueryToken::Field(field) => self.field_step(mapper, st, field, Ghost(bound)),
            QueryToken::Predicate(_) => Ok(st),
        }
    }
}


/// Once an outcome is an error, the whole list has that error.
proof fn lemma_collect_err(items: Seq<Result<Seq<char>, SqlBuilderErrorView>>, n: int)
    requires
        0 <= n <= items.len(),
        collect(items.take(n)) is Err,
    ensures
        collect(items) == collect(items.take(n)),
    decreases items.len() - n,
{
    if n < items.len() {
        assert(items.take(n + 1).drop_last() =~= items.take(n));
        lemma_collect_err(items, n + 1);
    } else {
        assert(items.take(n) =~= items);
    }
}

/// The priority of an ordering.
fn priority_of(order: &FieldOrder) -> (p: u8)
    ensures
        p == priority(*order),
{
    match order {
        FieldOrder::Asc(n) => *n,
        FieldOrder::Desc(n) => *n,
    }
}

/// The orderings by ascending priority.
fn sort_ordering(ordering: &Vec<(FieldOrder, usize)>, Ghost(len): Ghost<int>) -> (sorted: Vec<
    (FieldOrder, usize),
>)
    requires
        forall|k: int| 0 <= k < ordering@.len() ==> (#[trigger] ordering@[k]).1 < len,
    ensures
        ordering_view(sorted@) == by_priority(ordering_view(ordering@), 255),
        forall|k: int| 0 <= k < sorted@.len() ==> (#[trigger] sorted@[k]).1 < len,
{
    let ghost all = ordering_view(ordering@);
    let mut sorted: Vec<(FieldOrder, usize)> = Vec::new();
    let mut p: u16 = 0;
    assert(ordering_view(sorted@) =~= by_priority(all, -1));
    while p < 256
        invariant
            p <= 256,
            all == ordering_view(ordering@),
            ordering_view(sorted@) == by_priority(all, p - 1),
            forall|k: int| 0 <= k < ordering@.len() ==> (#[trigger] ordering@[k]).1 < len,
            forall|k: int| 0 <= k < sorted@.len() ==> (#[trigger] sorted@[k]).1 < len,
        decreases 256 - p,
    {
        let mut k: usize = 0;
        assert(all.take(0) =~= Seq::<(FieldOrder, int)>::empty());
        assert(ordering_view(sorted@) =~= by_priority(all, p - 1) + with_priority(
            all.take(0),
            p as int,
        ));
        while k < ordering.len()
            invariant
                k <= ordering.len(),
                p < 256,
                all == ordering_view(ordering@),
                ordering_view(sorted@) == by_priority(all, p - 1) + with_priority(
                    all.take(k as int),
                    p as int,
                ),
                forall|k: int| 0 <= k < ordering@.len() ==> (#[trigger] ordering@[k]).1 < len,
                forall|k: int| 0 <= k < sorted@.len() ==> (#[trigger] sorted@[k]).1 < len,
            decreases ordering.len() - k,
        {
            assert(all.take(k + 1).drop_last() =~= all.take(k as int));
            assert(all.take(k + 1).last() == all[k as int]);
            if priority_of(&ordering[k].0) as u16 == p {
                let ghost before = ordering_view(sorted@);
                sorted.push(ordering[k]);
                assert(ordering_view(sorted@) =~= before.push(all[k as int]));
                assert(ordering_view(sorted@) =~= by_priority(all, p - 1) + with_priority(
                    all.take(k + 1),
                    p as int,
                ));
            }
            k = k + 1;
        }
        assert(all.take(ordering.len() as int) =~= all);
        p = p + 1;
    }
    sorted
}

impl SqlBuilder {
    /// What is selected for the field at `i`.
    fn select_sql<H: FieldHandler>(mapper: &SqlMapper<H>, i: usize) -> (r: Result<
        String,
        SqlBuilderError,
    >)
        requires
            i < mapper.fields@.len(),
        ensures
            match r {
                Ok(s) => mapper@.select_sql(i as int) == Ok::<Seq<char>, SqlBuilderErrorView>(s@),
                Err(e) => mapper@.select_sql(i as int) == Err::<Seq<char>, SqlBuilderErrorView>(
                    e@,
                ),
            },
    {
        let handler = handler_of(mapper, i);
        match handler.build_select(expression_of(mapper, i), &no_aux()) {
            Err(e) => Err(e),
            Ok(Some(sql)) => Ok(sql.0),
            Ok(None) => Ok(String::from_str("null")),
        }
    }

    /// One item of ORDER BY.
    fn order_item<H: FieldHandler>(mapper: &SqlMapper<H>, entry: &(FieldOrder, usize)) -> (r: Result<
        String,
        SqlBuilderError,
    >)
        requires
            entry.1 < mapper.fields@.len(),
        ensures
            match r {
                Ok(s) => mapper@.order_item((entry.0, entry.1 as int)) == Ok::<
                    Seq<char>,
                    SqlBuilderErrorView,
                >(s@),
                Err(e) => mapper@.order_item((entry.0, entry.1 as int)) == Err::<
                    Seq<char>,
                    SqlBuilderErrorView,
                >(e@),
            },
    {
        let handler = handler_of(mapper, entry.1);
        let mut item = match handler.build_select(expression_of(mapper, entry.1), &no_aux()) {
            Err(e) => {
                return Err(e);
            },
            Ok(Some(sql)) => sql.0,
            Ok(None) => String::new(),
        };
        match entry.0 {
            FieldOrder::Asc(_) => item.append(" ASC"),
            FieldOrder::Desc(_) => item.append(" DESC"),
        }
        assert(item@ =~= mapper@.order_item((entry.0, entry.1 as int))->Ok_0);
        Ok(item)
    }

    /// The clause ORDER BY for the orderings of a query.
    fn build_ordering<H: FieldHandler>(mapper: &SqlMapper<H>, ordering: &Vec<(FieldOrder, usize)>) -> (r:
        Result<String, SqlBuilderError>)
        requires
            forall|k: int|
                0 <= k < ordering@.len() ==> (#[trigger] ordering@[k]).1 < mapper.fields@.len(),
        ensures
            match r {
                Ok(s) => mapper@.order_items(ordering_view(ordering@)) is Ok && s@ == trim_end(
                    join(mapper@.order_items(ordering_view(ordering@))->Ok_0, ", "@),
                ),
                Err(e) => mapper@.order_items(ordering_view(ordering@)) == Err::<
                    Seq<Seq<char>>,
                    SqlBuilderErrorView,
                >(e@),
            },
    {
        let sorted = sort_ordering(ordering, Ghost(mapper.fields@.len() as int));
        let ghost entries = by_priority(ordering_view(ordering@), 255);
        let ghost items = Seq::new(entries.len(), |k: int| mapper@.order_item(entries[k]));
        let mut texts: Vec<String> = Vec::new();
        let mut k: usize = 0;
        assert(items.take(0) =~= Seq::empty());
        assert(views(texts@) =~= Seq::<Seq<char>>::empty());
        while k < sorted.len()
            invariant
                k <= sorted.len(),
                entries == ordering_view(sorted@),
                entries == by_priority(ordering_view(ordering@), 255),
                items == Seq::new(entries.len(), |k: int| mapper@.order_item(entries[k])),
                forall|k: int| 0 <= k < sorted@.len() ==> (#[trigger] sorted@[k]).1
                    < mapper.fields@.len(),
                collect(items.take(k as int)) == Ok::<Seq<Seq<char>>, SqlBuilderErrorView>(
                    views(texts@),
                ),
            decreases sorted.len() - k,
        {
            assert(items.take(k + 1).drop_last() =~= items.take(k as int));
            assert(items.take(k + 1).last() == mapper@.order_item(entries[k as int]));
            match Self::order_item(mapper, &sorted[k]) {
                Err(e) => {
                    proof {
                        lemma_collect_err(items, k + 1);
                    }
                    return Err(e);
                },
                Ok(item) => {
                    proof {
                        lemma_views_push(texts@, item);
                    }
                    texts.push(item);
                },
            }
            k = k + 1;
        }
        assert(items.take(sorted.len() as int) =~= items);
        let mut clause = String::new();
        push_joined(&mut clause, &texts, ", ");
        assert(clause@ =~= join(views(texts@), ", "@));
        Ok(trimmed_end(clause.as_str()))
    }

    /// The clause SELECT, with a column for each mapped field, and whether
    /// any field is selected.
    fn build_select_clause<H: FieldHandler>(mapper: &SqlMapper<H>, selected: &Vec<bool>) -> (r: Result<
        (String, bool),
        SqlBuilderError,
    >)
        requires
            selected@.len() == mapper.fields@.len(),
        ensures
            match r {
                Ok(s) => mapper@.select_items(selected@) is Ok && s.0@ == join(
                    mapper@.select_items(selected@)->Ok_0,
                    ", "@,
                ) && s.1 == mapper@.any_selected(selected@),
                Err(e) => mapper@.select_items(selected@) == Err::<
                    Seq<Seq<char>>,
                    SqlBuilderErrorView,
                >(e@),
            },
    {
        let ghost m = mapper@;
        let ghost items = Seq::new(m.fields.len(), |i: int| m.select_item(selected@, i));
        let mut texts: Vec<String> = Vec::new();
        let mut any_selected = false;
        let mut i: usize = 0;
        assert(items.take(0) =~= Seq::empty());
        assert(views(texts@) =~= Seq::<Seq<char>>::empty());
        while i < mapper.fields.len()
            invariant
                i <= mapper.fields.len(),
                m == mapper@,
                selected@.len() == mapper.fields@.len(),
                items == Seq::new(m.fields.len(), |i: int| m.select_item(selected@, i)),
                collect(items.take(i as int)) == Ok::<Seq<Seq<char>>, SqlBuilderErrorView>(
                    views(texts@),
                ),
                any_selected == (exists|k: int|
                    0 <= k < i && (#[trigger] selected@[k]
                        || m.fields[k].options.always_selected)),
            decreases mapper.fields.len() - i,
        {
            assert(items.take(i + 1).drop_last() =~= items.take(i as int));
            assert(items.take(i + 1).last() == m.select_item(selected@, i as int));
            let ghost chosen = selected@[i as int] || m.fields[i as int].options.always_selected;
            let ghost any_before = any_selected;
            assert(m.fields[i as int].options.always_selected
                == mapper.fields@[i as int].options.always_selected);
            let item = if selected[i] || mapper.fields[i].options.always_selected {
                any_selected = true;
                match Self::select_sql(mapper, i) {
                    Err(e) => {
                        proof {
                            lemma_collect_err(items, i + 1);
                        }
                        return Err(e);
                    },
                    Ok(sql) => sql,
                }
            } else {
                String::from_str("null")
            };
            proof {
                lemma_views_push(texts@, item);
                if any_before {
                    let k = choose|k: int|
                        0 <= k < i && (#[trigger] selected@[k]
                            || m.fields[k].options.always_selected);
                    assert(0 <= k < i + 1 && (selected@[k]
                        || m.fields[k].options.always_selected));
                }
                if chosen {
                    assert(0 <= i < i + 1 && (selected@[i as int]
                        || m.fields[i as int].options.always_selected));
                }
                if !any_selected {
                    assert forall|k: int| 0 <= k < i + 1 implies !(#[trigger] selected@[k]
                        || m.fields[k].options.always_selected) by {
                        if k < i {
                        }
                    }
                }
            }
            texts.push(item);
            i = i + 1;
        }
        assert(items.take(mapper.fields.len() as int) =~= items);
        let mut clause = String::new();
        push_joined(&mut clause, &texts, ", ");
        Ok((clause, any_selected))
    }

    /// Notes the path segments of the fields that are always selected.
    fn mark_preselected<H: FieldHandler>(mapper: &SqlMapper<H>, needed: &mut Vec<String>)
        ensures
            name_set(final(needed)@) == name_set(old(needed)@).union(
                mapper@.preselected_joins(mapper@.fields.len() as int),
            ),
    {
        let ghost m = mapper@;
        let mut i: usize = 0;
        assert(m.preselected_joins(0) =~= Set::<Seq<char>>::empty());
        assert(name_set(needed@) =~= name_set(old(needed)@).union(m.preselected_joins(0)));
        while i < mapper.fields.len()
            invariant
                i <= mapper.fields.len(),
                m == mapper@,
                name_set(needed@) == name_set(old(needed)@).union(m.preselected_joins(i as int)),
            decreases mapper.fields.len() - i,
        {
            let ghost before = name_set(needed@);
            let marked = mapper.fields[i].options.always_selected && mapper.fields[i].subfields;
            if marked {
                mark_ancestors(needed, mapper.fields[i].name.as_str());
            }
            proof {
                let add = if marked {
                    ancestors(m.fields[i as int].name)
                } else {
                    Set::<Seq<char>>::empty()
                };
                assert(name_set(needed@) =~= before.union(add));
                assert forall|s: Seq<char>|
                    m.preselected_joins(i + 1).contains(s) <==> m.preselected_joins(
                        i as int,
                    ).union(add).contains(s) by {
                    if m.preselected_joins(i + 1).contains(s) {
                        let k = choose|k: int|
                            0 <= k < i + 1 && k < m.fields.len() && (
                            #[trigger] m.fields[k]).options.always_selected && m.fields[k].subfields
                                && ancestors(m.fields[k].name).contains(s);
                        if k < i {
                            assert(m.preselected_joins(i as int).contains(s));
                        }
                    }
                    if add.contains(s) {
                        assert(m.fields[i as int].options.always_selected);
                    }
                    if m.preselected_joins(i as int).contains(s) {
                        let k = choose|k: int|
                            0 <= k < i && k < m.fields.len() && (
                            #[trigger] m.fields[k]).options.always_selected && m.fields[k].subfields
                                && ancestors(m.fields[k].name).contains(s);
                        assert(m.fields[k].options.always_selected);
                    }
                }
                assert(m.preselected_joins(i + 1) =~= m.preselected_joins(i as int).union(add));
                assert(name_set(needed@) =~= name_set(old(needed)@).union(
                    m.preselected_joins(i + 1),
                ));
            }
            i = i + 1;
        }
    }

    /// The clause JOIN: the joins that handlers asked for, then the mapped
    /// joins that are needed, each once.
    fn build_join_clause<H: FieldHandler>(
        mapper: &SqlMapper<H>,
        fragments: Vec<String>,
        needed: &Vec<String>,
    ) -> (clause: String)
        ensures
            clause@ == trim_end(
                join(
                    views(fragments@) + mapper@.needed_joins(
                        name_set(needed@),
                        mapper@.joins.len() as int,
                    ),
                    " "@,
                ),
            ),
    {
        let ghost m = mapper@;
        let mut parts = fragments;
        let mut j: usize = 0;
        assert(views(parts@) =~= views(fragments@) + m.needed_joins(name_set(needed@), 0));
        while j < mapper.joins.len()
            invariant
                j <= mapper.joins.len(),
                m == mapper@,
                views(parts@) == views(fragments@) + m.needed_joins(name_set(needed@), j as int),
            decreases mapper.joins.len() - j,
        {
            if contains_name(needed, mapper.joins[j].path.as_str()) {
                let part = mapper.joins[j].join_clause.clone();
                proof {
                    lemma_views_push(parts@, part);
                }
                parts.push(part);
                assert(views(parts@) =~= views(fragments@) + m.needed_joins(
                    name_set(needed@),
                    j + 1,
                ));
            }
            j = j + 1;
        }
        let mut clause = String::new();
        push_joined(&mut clause, &parts, " ");
        assert(clause@ =~= join(views(parts@), " "@));
        trimmed_end(clause.as_str())
    }
}


impl SqlBuilderView {
    /// Once a token has an error, the whole scan has that error.
    pub proof fn lemma_scan_err<H: FieldHandler>(
        self,
        m: SqlMapperView<H>,
        tokens: Seq<QueryTokenView>,
        n: int,
    )
        requires
            0 <= n <= tokens.len(),
            self.scan(m, tokens.take(n)) is Err,
        ensures
            self.scan(m, tokens) == self.scan(m, tokens.take(n)),
        decreases tokens.len() - n,
    {
        if n < tokens.len() {
            assert(tokens.take(n + 1).drop_last() =~= tokens.take(n));
            self.lemma_scan_err(m, tokens, n + 1);
        } else {
            assert(tokens.take(n) =~= tokens);
        }
    }
}

impl SqlBuilder {
    /// Builds the SQL for a query: every clause of the SELECT and the
    /// parameters of WHERE and HAVING, or the first error met. The builder
    /// stays as it is.
    pub fn build<H: FieldHandler>(&mut self, sql_mapper: &SqlMapper<H>, query: &Query) -> (r: Result<
        SqlBuilderResult,
        SqlBuilderError,
    >)
        ensures
            *final(self) == *old(self),
            match r {
                Ok(result) => old(self)@.build(sql_mapper@, query@) == Ok::<
                    SqlBuilderResultView,
                    SqlBuilderErrorView,
                >(result@),
                Err(e) => old(self)@.build(sql_mapper@, query@) == Err::<
                    SqlBuilderResultView,
                    SqlBuilderErrorView,
                >(e@),
            },
    {
        let ghost b = self@;
        let ghost m = sql_mapper@;
        let ghost tokens = query@.tokens;
        let mut st = Scan::new(sql_mapper);
        let mut i: usize = 0;
        assert(tokens.take(0) =~= Seq::<QueryTokenView>::empty());
        while i < query.tokens.len()
            invariant
                i <= query.tokens.len(),
                *self == *old(self),
                b == self@,
                m == sql_mapper@,
                tokens == query@.tokens,
                b.scan(m, tokens.take(i as int)) == Ok::<ScanView, SqlBuilderErrorView>(st@),
                st.fits(sql_mapper, i as int),
            decreases query.tokens.len() - i,
        {
            assert(tokens.take(i + 1).drop_last() =~= tokens.take(i as int));
            assert(tokens.take(i + 1).last() == query.tokens@[i as int]@);
            match self.step(sql_mapper, st, &query.tokens[i], Ghost(i as int)) {
                Err(e) => {
                    proof {
                        b.lemma_scan_err(m, tokens, i + 1);
                    }
                    return Err(e);
                },
                Ok(next) => {
                    st = next;
                },
            }
            i = i + 1;
        }
        assert(tokens.take(query.tokens.len() as int) =~= tokens);
        let order_by_clause = match Self::build_ordering(sql_mapper, &st.ordering) {
            Err(e) => {
                return Err(e);
            },
            Ok(clause) => clause,
        };
        let (select_clause, any_selected) = match Self::build_select_clause(
            sql_mapper,
            &st.selected,
        ) {
            Err(e) => {
                return Err(e);
            },
            Ok(clause) => clause,
        };
        let Scan { where_clause, having_clause, join_fragments, selected, joins_needed, ordering } =
            st;
        let mut joins_needed = joins_needed;
        Self::mark_preselected(sql_mapper, &mut joins_needed);
        let join_clause = Self::build_join_clause(sql_mapper, join_fragments, &joins_needed);
        Ok(
            SqlBuilderResult {
                table: sql_mapper.table.clone(),
                any_selected,
                distinct: query.distinct,
                join_clause,
                select_clause,
                where_clause: where_clause.text,
                order_by_clause,
                having_clause: having_clause.text,
                where_params: where_clause.params,
                having_params: having_clause.params,
            },
        )
    }

    /// Builds the SQL for a count query: only the fields that take part in
    /// count queries are read. The builder stays in this mode.
    pub fn build_count<H: FieldHandler>(&mut self, sql_mapper: &SqlMapper<H>, query: &Query) -> (r:
        Result<SqlBuilderResult, SqlBuilderError>)
        ensures
            final(self)@ == (SqlBuilderView { count_query: true, ..old(self)@ }),
            match r {
                Ok(result) => final(self)@.build(sql_mapper@, query@) == Ok::<
                    SqlBuilderResultView,
                    SqlBuilderErrorView,
                >(result@),
                Err(e) => final(self)@.build(sql_mapper@, query@) == Err::<
                    SqlBuilderResultView,
                    SqlBuilderErrorView,
                >(e@),
            },
    {
        self.count_query = true;
        self.build(sql_mapper, query)
    }

    /// The path that [`SqlBuilder::build_path`] restricts a build to: `path`
    /// with an underscore at its end.
    pub open spec fn subpath_of(path: Seq<char>) -> Seq<char> {
        if path.len() > 0 && path.last() == '_' {
            path
        } else {
            path.push('_')
        }
    }

    /// Builds the SQL for the fields of a query that lie below `path`, which
    /// are looked up without the path. The builder stays restricted to the
    /// path.
    pub fn build_path<H: FieldHandler>(
        &mut self,
        path: &str,
        sql_mapper: &SqlMapper<H>,
        query: &Query,
    ) -> (r: Result<SqlBuilderResult, SqlBuilderError>)
        ensures
            final(self)@ == (SqlBuilderView { subpath: Self::subpath_of(path@), ..old(self)@ }),
            match r {
                Ok(result) => final(self)@.build(sql_mapper@, query@) == Ok::<
                    SqlBuilderResultView,
                    SqlBuilderErrorView,
                >(result@),
                Err(e) => final(self)@.build(sql_mapper@, query@) == Err::<
                    SqlBuilderResultView,
                    SqlBuilderErrorView,
                >(e@),
            },
    {
        let chars = to_chars(path);
        let mut subpath = String::from_str(path);
        if !(chars.len() > 0 && chars[chars.len() - 1] == '_') {
            push_char(&mut subpath, '_');
        }
        self.subpath = subpath;
        self.build(sql_mapper, query)
    }
}

} // verus!
