//! What holds of every build, whatever the query and the mapper.

use crate::field_handler::{AuxView, FieldHandler, SqlView};
use crate::query::{FieldFilterView, FieldView, QueryTokenView, QueryView};
use crate::sql_builder::{
    collect, missing_message, role_message, wildcard_selects, ClauseView, ScanView,
    SqlBuilderErrorView, SqlBuilderView,
};
use crate::sql_builder_result::SqlBuilderResultView;
use crate::sql_mapper::SqlMapperView;
use crate::text::join;
use vstd::prelude::*;

verus! {

/// Where a list of outcomes has no error, there is a text for each outcome,
/// in the same place.
pub proof fn lemma_collect_ok(items: Seq<Result<Seq<char>, SqlBuilderErrorView>>)
    requires
        collect(items) is Ok,
    ensures
        collect(items)->Ok_0.len() == items.len(),
        forall|i: int|
            0 <= i < items.len() ==> #[trigger] items[i] == Ok::<Seq<char>, SqlBuilderErrorView>(
                collect(items)->Ok_0[i],
            ),
    decreases items.len(),
{
    if items.len() > 0 {
        lemma_collect_ok(items.drop_last());
        assert forall|i: int| 0 <= i < items.len() implies #[trigger] items[i] == Ok::<
            Seq<char>,
            SqlBuilderErrorView,
        >(collect(items)->Ok_0[i]) by {
            if i < items.len() - 1 {
                assert(items.drop_last()[i] == items[i]);
            }
        }
    }
}

impl SqlBuilderView {
    /// The scan of some tokens and one more is the step of that token after
    /// the scan of the others.
    pub proof fn lemma_scan_step<H: FieldHandler>(
        self,
        m: SqlMapperView<H>,
        tokens: Seq<QueryTokenView>,
        k: int,
    )
        requires
            0 <= k < tokens.len(),
        ensures
            self.scan(m, tokens.take(k + 1)) == match self.scan(m, tokens.take(k)) {
                Err(e) => Err(e),
                Ok(st) => self.step(m, st, tokens[k]),
            },
    {
        assert(tokens.take(k + 1).drop_last() =~= tokens.take(k));
        assert(tokens.take(k + 1).last() == tokens[k]);
    }

    /// The error of a token, after tokens without error, is the error of the
    /// build.
    pub proof fn lemma_first_error<H: FieldHandler>(
        self,
        m: SqlMapperView<H>,
        q: QueryView,
        k: int,
        e: SqlBuilderErrorView,
    )
        requires
            0 <= k < q.tokens.len(),
            self.scan(m, q.tokens.take(k)) matches Ok(st) && self.step(m, st, q.tokens[k]) == Err::<
                ScanView,
                SqlBuilderErrorView,
            >(e),
        ensures
            self.build(m, q) == Err::<SqlBuilderResultView, SqlBuilderErrorView>(e),
    {
        self.lemma_scan_step(m, q.tokens, k);
        self.lemma_scan_err(m, q.tokens, k + 1);
    }

    /// Whether a token can select the field at `i`: a wildcard that covers
    /// the field, or a field of the query that is not hidden and is mapped
    /// there.
    pub open spec fn may_select<H: FieldHandler>(
        self,
        m: SqlMapperView<H>,
        t: QueryTokenView,
        i: int,
    ) -> bool {
        match t {
            QueryTokenView::Wildcard(w) => wildcard_selects(m.fields[i], Some(w.path)),
            QueryTokenView::DoubleWildcard(_) => wildcard_selects(m.fields[i], None),
            QueryTokenView::Field(f) => !f.hidden && self.in_subpath(f.name) && m.field_index(
                self.local_name(f.name),
            ) == Some(i),
            _ => false,
        }
    }

    /// A scan has a mark for each mapped field, and marks no field that no
    /// token can select.
    pub proof fn lemma_scan_selected<H: FieldHandler>(
        self,
        m: SqlMapperView<H>,
        tokens: Seq<QueryTokenView>,
        i: int,
    )
        requires
            0 <= i < m.fields.len(),
            self.scan(m, tokens) is Ok,
        ensures
            self.scan(m, tokens)->Ok_0.selected.len() == m.fields.len(),
            (forall|k: int| 0 <= k < tokens.len() ==> !self.may_select(m, #[trigger] tokens[k], i))
                ==> !self.scan(m, tokens)->Ok_0.selected[i],
        decreases tokens.len(),
    {
        if tokens.len() > 0 {
            let before = tokens.drop_last();
            let st = self.scan(m, before)->Ok_0;
            self.lemma_scan_selected(m, before, i);
            if forall|k: int| 0 <= k < tokens.len() ==> !self.may_select(m, #[trigger] tokens[k], i) {
                assert forall|k: int| 0 <= k < before.len() implies !self.may_select(
                    m,
                    #[trigger] before[k],
                    i,
                ) by {
                    assert(before[k] == tokens[k]);
                }
                assert(!self.may_select(m, tokens[tokens.len() - 1], i));
            }
            match tokens.last() {
                QueryTokenView::Field(f) => {
                    if self.in_subpath(f.name) {
                        match m.field_index(self.local_name(f.name)) {
                            Some(j) => {
                                crate::sql_mapper::lemma_index_in(
                                    m.field_order(),
                                    self.local_name(f.name),
                                );
                            },
                            None => {},
                        }
                    }
                },
                _ => {},
            }
        }
    }

    /// A field that is hidden wherever the query names it, and that no
    /// wildcard covers, keeps its column in SELECT, and the column holds
    /// `null`: SELECT has a column for every mapped field, in the order of
    /// the mapper, whatever the query selects.
    pub proof fn lemma_unselected_field_is_null<H: FieldHandler>(
        self,
        m: SqlMapperView<H>,
        q: QueryView,
        i: int,
    )
        requires
            self.build(m, q) is Ok,
            0 <= i < m.fields.len(),
            !m.fields[i].options.always_selected,
            forall|k: int| 0 <= k < q.tokens.len() ==> !self.may_select(m, #[trigger] q.tokens[k], i),
        ensures
            ({
                let columns = m.select_items(self.scan(m, q.tokens)->Ok_0.selected)->Ok_0;
                &&& self.build(m, q)->Ok_0.select_clause == join(columns, ", "@)
                &&& columns.len() == m.fields.len()
                &&& columns[i] == "null"@
            }),
    {
        let st = self.scan(m, q.tokens)->Ok_0;
        self.lemma_scan_selected(m, q.tokens, i);
        let items = Seq::new(m.fields.len(), |k: int| m.select_item(st.selected, k));
        lemma_collect_ok(items);
        assert(items[i] == m.select_item(st.selected, i));
    }

    /// The filter of an aggregated field goes to HAVING with its parameters
    /// and leaves WHERE as it is; the filter of any other field goes to
    /// WHERE and leaves HAVING as it is.
    pub proof fn lemma_filter_routing<H: FieldHandler>(
        self,
        m: SqlMapperView<H>,
        st: ScanView,
        f: FieldView,
    )
        requires
            self.field_step(m, st, f) is Ok,
        ensures
            ({
                let after = self.field_step(m, st, f)->Ok_0;
                &&& f.aggregation ==> after.where_clause == st.where_clause
                &&& !f.aggregation ==> after.having_clause == st.having_clause
                &&& after.where_clause.params.len() >= st.where_clause.params.len()
                &&& after.having_clause.params.len() >= st.having_clause.params.len()
            }),
    {
    }

    /// Where every filter of a query is on an aggregated field, WHERE gets no
    /// parameter; where none is, HAVING gets none.
    pub proof fn lemma_clause_of_filters<H: FieldHandler>(
        self,
        m: SqlMapperView<H>,
        tokens: Seq<QueryTokenView>,
    )
        requires
            self.scan(m, tokens) is Ok,
        ensures
            (forall|k: int|
                0 <= k < tokens.len() ==> (#[trigger] tokens[k] matches QueryTokenView::Field(f)
                    ==> f.filter is Some ==> f.aggregation)) ==> self.scan(
                m,
                tokens,
            )->Ok_0.where_clause.params.len() == 0,
            (forall|k: int|
                0 <= k < tokens.len() ==> (#[trigger] tokens[k] matches QueryTokenView::Field(f)
                    ==> f.filter is Some ==> !f.aggregation)) ==> self.scan(
                m,
                tokens,
            )->Ok_0.having_clause.params.len() == 0,
        decreases tokens.len(),
    {
        if tokens.len() > 0 {
            let before = tokens.drop_last();
            self.lemma_clause_of_filters(m, before);
            let st = self.scan(m, before)->Ok_0;
            if forall|k: int|
                0 <= k < tokens.len() ==> (#[trigger] tokens[k] matches QueryTokenView::Field(f)
                    ==> f.filter is Some ==> f.aggregation) {
                assert forall|k: int| 0 <= k < before.len() implies (
                #[trigger] before[k] matches QueryTokenView::Field(f) ==> f.filter is Some
                    ==> f.aggregation) by {
                    assert(before[k] == tokens[k]);
                }
                assert(tokens[tokens.len() - 1] == tokens.last());
            }
            if forall|k: int|
                0 <= k < tokens.len() ==> (#[trigger] tokens[k] matches QueryTokenView::Field(f)
                    ==> f.filter is Some ==> !f.aggregation) {
                assert forall|k: int| 0 <= k < before.len() implies (
                #[trigger] before[k] matches QueryTokenView::Field(f) ==> f.filter is Some
                    ==> !f.aggregation) by {
                    assert(before[k] == tokens[k]);
                }
                assert(tokens[tokens.len() - 1] == tokens.last());
            }
        }
    }

    /// A field with a filter for which the handler words a condition adds
    /// the condition and its parameters to the clause of its kind.
    pub proof fn lemma_filter_written<H: FieldHandler>(
        self,
        m: SqlMapperView<H>,
        st: ScanView,
        f: FieldView,
        i: int,
    )
        requires
            0 <= i < m.fields.len(),
            f.filter is Some,
            self.mapped_field_step(m, st, f, i) is Ok,
            self.roles_valid(m.fields[i].options.roles),
            !(self.count_query && !m.fields[i].options.count_query),
            m.fields[i].handler.filter_of(
                (m.fields[i].expression, Seq::empty()),
                f.filter->0,
                Seq::empty(),
            ) matches Ok(Some(sql)),
        ensures
            ({
                let sql = m.fields[i].handler.filter_of(
                    (m.fields[i].expression, Seq::empty()),
                    f.filter->0,
                    Seq::empty(),
                )->Ok_0->0;
                let after = self.mapped_field_step(m, st, f, i)->Ok_0;
                if f.aggregation {
                    &&& after.having_clause == st.having_clause.with_filter(f.concatenation, sql)
                    &&& after.having_clause.params == st.having_clause.params + sql.1
                    &&& after.where_clause == st.where_clause
                } else {
                    &&& after.where_clause == st.where_clause.with_filter(f.concatenation, sql)
                    &&& after.where_clause.params == st.where_clause.params + sql.1
                    &&& after.having_clause == st.having_clause
                }
            }),
    {
    }

    /// A caller without a role that a field asks for gets `RoleRequired`
    /// for the field, and a caller with all of them gets no error from the
    /// builder: what error there is then comes from the field's handler. A
    /// field that asks for no role is open to every caller.
    pub proof fn lemma_role_required<H: FieldHandler>(
        self,
        m: SqlMapperView<H>,
        st: ScanView,
        f: FieldView,
        i: int,
    )
        requires
            0 <= i < m.fields.len(),
        ensures
            m.fields[i].options.roles == Set::<Seq<char>>::empty() ==> self.roles_valid(
                m.fields[i].options.roles,
            ),
            !self.roles_valid(m.fields[i].options.roles) ==> self.mapped_field_step(m, st, f, i)
                == Err::<ScanView, SqlBuilderErrorView>(
                SqlBuilderErrorView::RoleRequired(role_message(m.fields[i].name)),
            ),
            self.roles_valid(m.fields[i].options.roles) ==> (self.mapped_field_step(m, st, f, i)
                matches Err(e) ==> f.filter is Some && {
                let t = m.fields[i];
                ||| t.handler.filter_of((t.expression, Seq::empty()), f.filter->0, Seq::empty())
                    == Err::<Option<(Seq<char>, Seq<Seq<char>>)>, SqlBuilderErrorView>(e)
                ||| t.handler.join_of(Seq::empty()) == Err::<
                    Option<(Seq<char>, Seq<Seq<char>>)>,
                    SqlBuilderErrorView,
                >(e)
            }),
    {
    }

    /// The first field of a query that asks for a role the caller lacks
    /// ends the build with `RoleRequired`, if no token before it has an
    /// error.
    pub proof fn lemma_build_role_required<H: FieldHandler>(
        self,
        m: SqlMapperView<H>,
        q: QueryView,
        k: int,
        i: int,
    )
        requires
            0 <= k < q.tokens.len(),
            0 <= i < m.fields.len(),
            self.scan(m, q.tokens.take(k)) is Ok,
            q.tokens[k] matches QueryTokenView::Field(f) && self.in_subpath(f.name)
                && m.field_index(self.local_name(f.name)) == Some(i),
            !self.roles_valid(m.fields[i].options.roles),
        ensures
            self.build(m, q) == Err::<SqlBuilderResultView, SqlBuilderErrorView>(
                SqlBuilderErrorView::RoleRequired(role_message(m.fields[i].name)),
            ),
    {
        self.lemma_first_error(
            m,
            q,
            k,
            SqlBuilderErrorView::RoleRequired(role_message(m.fields[i].name)),
        );
    }

    /// A field that is not mapped is an error, unless its name spells a path
    /// and lies below an ignored path: then it is passed over and nothing
    /// changes.
    pub proof fn lemma_field_missing<H: FieldHandler>(
        self,
        m: SqlMapperView<H>,
        st: ScanView,
        f: FieldView,
    )
        requires
            self.in_subpath(f.name),
            m.field_index(self.local_name(f.name)) is None,
        ensures
            self.field_step(m, st, f) == if f.name.contains('_') && self.path_ignored(f.name) {
                Ok::<ScanView, SqlBuilderErrorView>(st)
            } else {
                Err::<ScanView, SqlBuilderErrorView>(
                    SqlBuilderErrorView::FieldMissing(missing_message(f.name)),
                )
            },
    {
    }

    /// The first field of a query that is not mapped and not to be ignored
    /// ends the build with `FieldMissing`, if no token before it has an
    /// error.
    pub proof fn lemma_build_field_missing<H: FieldHandler>(
        self,
        m: SqlMapperView<H>,
        q: QueryView,
        k: int,
    )
        requires
            0 <= k < q.tokens.len(),
            self.scan(m, q.tokens.take(k)) is Ok,
            q.tokens[k] matches QueryTokenView::Field(f) && self.in_subpath(f.name)
                && m.field_index(self.local_name(f.name)) is None && !(f.name.contains('_')
                && self.path_ignored(f.name)),
        ensures
            self.build(m, q) == Err::<SqlBuilderResultView, SqlBuilderErrorView>(
                SqlBuilderErrorView::FieldMissing(missing_message(q.tokens[k]->Field_0.name)),
            ),
    {
        self.lemma_first_error(
            m,
            q,
            k,
            SqlBuilderErrorView::FieldMissing(missing_message(q.tokens[k]->Field_0.name)),
        );
    }

    /// A query of one wildcard without a path selects the fields at the top
    /// that do not ignore wildcards, and leaves WHERE and HAVING empty. Its
    /// result is empty only where no field is selected.
    pub proof fn lemma_wildcard_only<H: FieldHandler>(self, m: SqlMapperView<H>, q: QueryView)
        requires
            q.tokens.len() == 1,
            q.tokens[0] matches QueryTokenView::Wildcard(w) && w.path.len() == 0,
        ensures
            self.scan(m, q.tokens) is Ok,
            ({
                let selected = self.scan(m, q.tokens)->Ok_0.selected;
                &&& selected.len() == m.fields.len()
                &&& forall|i: int|
                    0 <= i < m.fields.len() ==> #[trigger] selected[i] == (
                    !m.fields[i].options.ignore_wildcard && !m.fields[i].subfields)
            }),
            self.build(m, q) matches Ok(r) ==> {
                &&& r.where_clause.len() == 0
                &&& r.having_clause.len() == 0
                &&& r.params().len() == 0
                &&& r.is_empty() == !m.any_selected(self.scan(m, q.tokens)->Ok_0.selected)
            },
    {
        assert(q.tokens.drop_last() =~= Seq::<QueryTokenView>::empty());
        assert(q.tokens.last() == q.tokens[0]);
        let path = q.tokens[0]->Wildcard_0.path;
        assert(path =~= Seq::<char>::empty());
        assert(self.scan(m, q.tokens.drop_last()) == Ok::<ScanView, SqlBuilderErrorView>(
            m.initial_scan(),
        ));
        assert(self.step(m, m.initial_scan(), q.tokens.last()) == Ok::<
            ScanView,
            SqlBuilderErrorView,
        >(self.wildcard_step(m, m.initial_scan(), Some(path))));
        assert(self.scan(m, q.tokens) == Ok::<ScanView, SqlBuilderErrorView>(
            self.wildcard_step(m, m.initial_scan(), Some(path)),
        ));
    }
}

impl<H: FieldHandler> SqlMapperView<H> {
    /// The places of the first `n` mapped joins whose path segment is
    /// needed, in ascending order.
    pub open spec fn needed_join_places(self, needed: Set<Seq<char>>, n: int) -> Seq<int>
        decreases n,
    {
        if n <= 0 || n > self.joins.len() {
            Seq::empty()
        } else if needed.contains(self.joins[n - 1].path) {
            self.needed_join_places(needed, n - 1).push(n - 1)
        } else {
            self.needed_join_places(needed, n - 1)
        }
    }

    /// Every mapped join whose path segment is needed comes into the SQL
    /// once, however many fields need it, and no other mapped join comes:
    /// the joins of a build are the clauses of the needed mapped joins, each
    /// at one place and in the order they were mapped.
    pub proof fn lemma_one_join_per_path(self, needed: Set<Seq<char>>, n: int)
        requires
            0 <= n <= self.joins.len(),
        ensures
            ({
                let places = self.needed_join_places(needed, n);
                let clauses = self.needed_joins(needed, n);
                &&& clauses.len() == places.len()
                &&& forall|k: int|
                    0 <= k < places.len() ==> 0 <= #[trigger] places[k] < n && clauses[k]
                        == self.joins[places[k]].join_clause && needed.contains(
                        self.joins[places[k]].path,
                    )
                &&& forall|k: int, l: int| 0 <= k < l < places.len() ==> places[k] < places[l]
                &&& forall|j: int|
                    0 <= j < n && needed.contains(#[trigger] self.joins[j].path)
                        ==> places.contains(j)
            }),
        decreases n,
    {
        if n > 0 {
            self.lemma_one_join_per_path(needed, n - 1);
            let before = self.needed_join_places(needed, n - 1);
            let places = self.needed_join_places(needed, n);
            assert forall|j: int|
                0 <= j < n && needed.contains(#[trigger] self.joins[j].path) implies places.contains(
                j,
            ) by {
                if j < n - 1 {
                    assert(before.contains(j));
                    let k = choose|k: int| 0 <= k < before.len() && before[k] == j;
                    assert(places[k] == j);
                } else {
                    assert(places[places.len() - 1] == j);
                }
            }
        }
    }
}


/// Where a list of outcomes has an error, one of the outcomes is that error.
pub proof fn lemma_collect_err_source(items: Seq<Result<Seq<char>, SqlBuilderErrorView>>)
    requires
        collect(items) is Err,
    ensures
        exists|i: int|
            0 <= i < items.len() && #[trigger] items[i] == Err::<Seq<char>, SqlBuilderErrorView>(
                collect(items)->Err_0,
            ),
    decreases items.len(),
{
    if items.len() > 0 {
        if collect(items.drop_last()) is Err {
            lemma_collect_err_source(items.drop_last());
            let i = choose|i: int|
                0 <= i < items.drop_last().len() && #[trigger] items.drop_last()[i] == Err::<
                    Seq<char>,
                    SqlBuilderErrorView,
                >(collect(items.drop_last())->Err_0);
            assert(items[i] == items.drop_last()[i]);
        } else {
            assert(items[items.len() - 1] == items.last());
        }
    }
}

/// Whether the handlers of a type leave roles to the builder: none of them
/// answers with `RoleRequired`.
pub open spec fn leaves_roles_to_builder<H: FieldHandler>() -> bool {
    &&& forall|h: H, select: SqlView, aux: AuxView|
        !(#[trigger] h.select_of(select, aux) matches Err(SqlBuilderErrorView::RoleRequired(_)))
    &&& forall|h: H, select: SqlView, filter: FieldFilterView, aux: AuxView|
        !(#[trigger] h.filter_of(select, filter, aux) matches Err(
            SqlBuilderErrorView::RoleRequired(_),
        ))
    &&& forall|h: H, aux: AuxView|
        !(#[trigger] h.join_of(aux) matches Err(SqlBuilderErrorView::RoleRequired(_)))
}

impl SqlBuilderView {
    /// Whether a token is a field of the query that is mapped at `i` and
    /// asks for a role that the caller lacks.
    pub open spec fn lacks_role<H: FieldHandler>(
        self,
        m: SqlMapperView<H>,
        t: QueryTokenView,
        i: int,
    ) -> bool {
        &&& 0 <= i < m.fields.len()
        &&& t matches QueryTokenView::Field(f) && self.in_subpath(f.name) && m.field_index(
            self.local_name(f.name),
        ) == Some(i)
        &&& !self.roles_valid(m.fields[i].options.roles)
    }

    /// A scan that ends with `RoleRequired` has read a field that asks for
    /// a role the caller lacks, if the handlers leave roles to the builder.
    pub proof fn lemma_scan_role_error<H: FieldHandler>(
        self,
        m: SqlMapperView<H>,
        tokens: Seq<QueryTokenView>,
    )
        requires
            leaves_roles_to_builder::<H>(),
            self.scan(m, tokens) matches Err(SqlBuilderErrorView::RoleRequired(_)),
        ensures
            exists|k: int, i: int|
                0 <= k < tokens.len() && #[trigger] self.lacks_role(m, tokens[k], i),
        decreases tokens.len(),
    {
        if tokens.len() > 0 {
            let before = tokens.drop_last();
            match self.scan(m, before) {
                Err(_) => {
                    self.lemma_scan_role_error(m, before);
                    let (k, i) = choose|k: int, i: int|
                        0 <= k < before.len() && #[trigger] self.lacks_role(m, before[k], i);
                    assert(before[k] == tokens[k]);
                    assert(self.lacks_role(m, tokens[k], i));
                },
                Ok(st) => {
                    let t = tokens.last();
                    match t {
                        QueryTokenView::Field(f) => {
                            let i = m.field_index(self.local_name(f.name))->0;
                            crate::sql_mapper::lemma_index_in(
                                m.field_order(),
                                self.local_name(f.name),
                            );
                            assert(tokens[tokens.len() - 1] == t);
                            assert(self.lacks_role(m, tokens[tokens.len() - 1], i));
                        },
                        _ => {},
                    }
                },
            }
        }
    }

    /// A build ends with `RoleRequired` only where the query names a field
    /// that asks for a role the caller lacks, if the handlers leave roles to
    /// the builder, as the basic handler does.
    pub proof fn lemma_role_error_has_a_cause<H: FieldHandler>(
        self,
        m: SqlMapperView<H>,
        q: QueryView,
    )
        requires
            leaves_roles_to_builder::<H>(),
            self.build(m, q) matches Err(SqlBuilderErrorView::RoleRequired(_)),
        ensures
            exists|k: int, i: int|
                0 <= k < q.tokens.len() && #[trigger] self.lacks_role(m, q.tokens[k], i),
    {
        match self.scan(m, q.tokens) {
            Err(_) => {
                self.lemma_scan_role_error(m, q.tokens);
            },
            Ok(st) => {
                let sorted = crate::sql_builder::by_priority(st.ordering, 255);
                let order = Seq::new(sorted.len(), |k: int| m.order_item(sorted[k]));
                if collect(order) is Err {
                    lemma_collect_err_source(order);
                } else {
                    let select = Seq::new(m.fields.len(), |k: int| m.select_item(st.selected, k));
                    lemma_collect_err_source(select);
                }
            },
        }
    }
}

/// The basic handler leaves roles to the builder.
pub proof fn lemma_basic_handler_leaves_roles()
    ensures
        leaves_roles_to_builder::<crate::field_handler::BasicFieldHandler>(),
{
    assert forall|
        h: crate::field_handler::BasicFieldHandler,
        select: SqlView,
        filter: FieldFilterView,
        aux: AuxView,
    |
        !(#[trigger] h.filter_of(select, filter, aux) matches Err(
            SqlBuilderErrorView::RoleRequired(_),
        )) by {
        match filter {
            FieldFilterView::Fn(name, _) => {},
            _ => {},
        }
    }
}

} // verus!
