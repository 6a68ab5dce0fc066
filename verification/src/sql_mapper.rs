//! The mapper tells the SQL builder how each field of a query is written in
//! SQL: its column or expression, the joins its path needs, the roles it
//! asks for, and when it is selected.
//!
//! A mapper is filled once, field by field, and then only read. The order in
//! which fields are mapped is the order of the columns in every SELECT that
//! is built from the mapper, whatever a query selects.

use crate::error::{ToqlError, ToqlErrorView};
use crate::field_handler::{BasicFieldHandler, FieldHandler};
use crate::query::name_set;
use crate::text::{has_char, same_text, to_chars};
use vstd::prelude::*;

verus! {

/// When and for whom a mapped field is selected.
#[derive(Debug, Clone, PartialEq, Eq)]
pub struct MapperOptions {
    pub(crate) always_selected: bool,
    pub(crate) count_query: bool,
    pub(crate) count_select: bool,
    pub(crate) ignore_wildcard: bool,
    pub(crate) roles: Vec<String>,
}

/// The mathematical value of [`MapperOptions`].
pub struct MapperOptionsView {
    /// The field is selected in every query.
    pub always_selected: bool,
    /// The field takes part in count queries.
    pub count_query: bool,
    /// The field is noted as one to select in count queries.
    pub count_select: bool,
    /// A wildcard does not select the field.
    pub ignore_wildcard: bool,
    /// The roles that a caller needs, all of them, to use the field.
    pub roles: Set<Seq<char>>,
}

impl View for MapperOptions {
    type V = MapperOptionsView;

    open(crate) spec fn view(&self) -> MapperOptionsView {
        MapperOptionsView {
            always_selected: self.always_selected,
            count_query: self.count_query,
            count_select: self.count_select,
            ignore_wildcard: self.ignore_wildcard,
            roles: name_set(self.roles@),
        }
    }
}

/// The options of a plain field: selected on demand and by wildcards, left
/// out of count queries, open to every caller.
pub open spec fn plain_options() -> MapperOptionsView {
    MapperOptionsView {
        always_selected: false,
        count_query: false,
        count_select: false,
        ignore_wildcard: false,
        roles: Set::empty(),
    }
}

impl MapperOptions {
    /// The options of a plain field.
    pub fn new() -> (o: Self)
        ensures
            o@ == plain_options(),
    {
        let o = MapperOptions {
            always_selected: false,
            count_query: false,
            count_select: false,
            ignore_wildcard: false,
            roles: Vec::new(),
        };
        assert(o@.roles =~= Set::empty());
        o
    }

    /// Selects the field in every query, asked for or not.
    pub fn preselect(self, always_selected: bool) -> (o: Self)
        ensures
            o@ == (MapperOptionsView { always_selected, ..self@ }),
    {
        let mut o = self;
        o.always_selected = always_selected;
        o
    }

    /// Lets the field's filter take part in count queries.
    pub fn count_filter(self, count_query: bool) -> (o: Self)
        ensures
            o@ == (MapperOptionsView { count_query, ..self@ }),
    {
        let mut o = self;
        o.count_query = count_query;
        o
    }

    /// Notes that the field is to be selected in count queries. The note is
    /// kept with the field; a build reads what a query names.
    pub fn count_select(self, count_select: bool) -> (o: Self)
        ensures
            o@ == (MapperOptionsView { count_select, ..self@ }),
    {
        let mut o = self;
        o.count_select = count_select;
        o
    }

    /// Keeps wildcards from selecting the field.
    pub fn ignore_wildcard(self, ignore_wildcard: bool) -> (o: Self)
        ensures
            o@ == (MapperOptionsView { ignore_wildcard, ..self@ }),
    {
        let mut o = self;
        o.ignore_wildcard = ignore_wildcard;
        o
    }

    /// Adds a role that a caller must have to use the field.
    pub fn restrict_role(self, role: &str) -> (o: Self)
        ensures
            o@ == (MapperOptionsView { roles: self@.roles.insert(role@), ..self@ }),
    {
        let mut o = self;
        let ghost before = o.roles@;
        o.roles.push(String::from_str(role));
        proof {
            lemma_name_set_push(before, o.roles@[before.len() as int]);
            assert(o.roles@ =~= before.push(o.roles@[before.len() as int]));
        }
        o
    }
}

/// The names of a list with one more name are the set with that name added.
pub proof fn lemma_name_set_push(names: Seq<String>, name: String)
    ensures
        name_set(names.push(name)) == name_set(names).insert(name@),
{
    let longer = names.push(name);
    assert forall|r: Seq<char>| name_set(longer).contains(r) <==> name_set(names).insert(
        name@,
    ).contains(r) by {
        if name_set(longer).contains(r) {
            let i = choose|i: int| 0 <= i < longer.len() && #[trigger] longer[i]@ == r;
            if i < names.len() {
                assert(names[i]@ == r);
            }
        }
        if name_set(names).contains(r) {
            let i = choose|i: int| 0 <= i < names.len() && #[trigger] names[i]@ == r;
            assert(longer[i]@ == r);
        }
        if r == name@ {
            assert(longer[names.len() as int]@ == r);
        }
    }
    assert(name_set(longer) =~= name_set(names).insert(name@));
}

/// How one field is written in SQL.
pub struct SqlTarget<H> {
    pub(crate) name: String,
    pub(crate) expression: String,
    pub(crate) handler: Option<H>,
    pub(crate) options: MapperOptions,
    pub(crate) subfields: bool,
}

/// The mathematical value of a [`SqlTarget`], with the handler that serves it.
pub struct SqlTargetView<H> {
    /// The field's name.
    pub name: Seq<char>,
    /// The column or expression that the field stands for.
    pub expression: Seq<char>,
    /// The field's own handler, or the mapper's.
    pub handler: H,
    pub options: MapperOptionsView,
    /// The name spells a path: the field lies behind joins.
    pub subfields: bool,
}

/// The SQL that joins the table behind one path segment.
#[derive(Debug, Clone, PartialEq, Eq)]
pub struct Join {
    pub(crate) path: String,
    pub(crate) join_clause: String,
}

/// The mathematical value of a [`Join`].
pub struct JoinView {
    pub path: Seq<char>,
    pub join_clause: Seq<char>,
}

impl View for Join {
    type V = JoinView;

    open(crate) spec fn view(&self) -> JoinView {
        JoinView { path: self.path@, join_clause: self.join_clause@ }
    }
}

/// Maps the fields of one table, and the joins that their paths need.
pub struct SqlMapper<H> {
    pub(crate) table: String,
    pub(crate) handler: H,
    pub(crate) fields: Vec<SqlTarget<H>>,
    pub(crate) joins: Vec<Join>,
}

/// The mathematical value of a [`SqlMapper`]: the mapped fields in the order
/// of their columns, and the joins in the order they were mapped.
pub struct SqlMapperView<H> {
    pub table: Seq<char>,
    /// The handler of the fields that have none of their own.
    pub handler: H,
    pub fields: Seq<SqlTargetView<H>>,
    pub joins: Seq<JoinView>,
}

/// The first place at which `name` stands in `names`.
pub open spec fn index_in(names: Seq<Seq<char>>, name: Seq<char>) -> Option<int>
    decreases names.len(),
{
    if names.len() == 0 {
        None
    } else {
        match index_in(names.drop_last(), name) {
            Some(i) => Some(i),
            None => if names.last() == name {
                Some(names.len() - 1)
            } else {
                None
            },
        }
    }
}

/// `index_in` gives a place where the name stands, and none before it does;
/// it gives nothing only where the name stands nowhere.
pub proof fn lemma_index_in(names: Seq<Seq<char>>, name: Seq<char>)
    ensures
        match index_in(names, name) {
            Some(i) => 0 <= i < names.len() && names[i] == name && forall|j: int|
                0 <= j < i ==> names[j] != name,
            None => forall|j: int| 0 <= j < names.len() ==> names[j] != name,
        },
    decreases names.len(),
{
    if names.len() > 0 {
        lemma_index_in(names.drop_last(), name);
        match index_in(names.drop_last(), name) {
            Some(i) => {
                assert(names.drop_last()[i] == names[i]);
                assert forall|j: int| 0 <= j < i implies names[j] != name by {
                    assert(names.drop_last()[j] == names[j]);
                }
            },
            None => {
                assert forall|j: int| 0 <= j < names.len() - 1 implies names[j] != name by {
                    assert(names.drop_last()[j] == names[j]);
                }
            },
        }
    }
}

impl<H> SqlMapperView<H> {
    /// The names of the mapped fields, in the order of their columns.
    pub open spec fn field_order(self) -> Seq<Seq<char>> {
        Seq::new(self.fields.len(), |i: int| self.fields[i].name)
    }

    /// The path segments that have a join, in the order they were mapped.
    pub open spec fn join_paths(self) -> Seq<Seq<char>> {
        Seq::new(self.joins.len(), |i: int| self.joins[i].path)
    }

    /// The place of the field `name` among the mapped fields.
    pub open spec fn field_index(self, name: Seq<char>) -> Option<int> {
        index_in(self.field_order(), name)
    }

    /// The place of the join for `path` among the mapped joins.
    pub open spec fn join_index(self, path: Seq<char>) -> Option<int> {
        index_in(self.join_paths(), path)
    }

    /// The mapper with `target` mapped: in the place of the field of that
    /// name, or where there is none as the last field.
    pub open spec fn with_field(self, target: SqlTargetView<H>) -> Self {
        SqlMapperView {
            fields: match self.field_index(target.name) {
                Some(i) => self.fields.update(i, target),
                None => self.fields.push(target),
            },
            ..self
        }
    }

    /// The mapper with `join` mapped: in the place of the join of that path,
    /// or where there is none as the last join.
    pub open spec fn with_join(self, join: JoinView) -> Self {
        SqlMapperView {
            joins: match self.join_index(join.path) {
                Some(i) => self.joins.update(i, join),
                None => self.joins.push(join),
            },
            ..self
        }
    }

    /// No field is mapped twice and no path is joined twice, and the fields
    /// that lie behind joins are those with an underscore in their names.
    pub open spec fn wf(self) -> bool {
        &&& self.field_order().no_duplicates()
        &&& self.join_paths().no_duplicates()
        &&& forall|i: int|
            0 <= i < self.fields.len() ==> (#[trigger] self.fields[i]).subfields
                == self.fields[i].name.contains('_')
    }
}

impl<H> SqlMapperView<H> {
    /// Mapping a field keeps a mapper well formed.
    pub proof fn lemma_with_field_wf(m: Self, target: SqlTargetView<H>)
        requires
            m.wf(),
            target.subfields == target.name.contains('_'),
        ensures
            m.with_field(target).wf(),
    {
        let after = m.with_field(target);
        lemma_index_in(m.field_order(), target.name);
        assert(after.join_paths() =~= m.join_paths());
        match m.field_index(target.name) {
            Some(i) => {
                assert(after.field_order() =~= m.field_order());
            },
            None => {
                assert(after.field_order() =~= m.field_order().push(target.name));
            },
        }
    }

    /// Mapping a join keeps a mapper well formed.
    pub proof fn lemma_with_join_wf(m: Self, join: JoinView)
        requires
            m.wf(),
        ensures
            m.with_join(join).wf(),
    {
        let after = m.with_join(join);
        lemma_index_in(m.join_paths(), join.path);
        assert(after.field_order() =~= m.field_order());
        match m.join_index(join.path) {
            Some(i) => {
                assert(after.join_paths() =~= m.join_paths());
            },
            None => {
                assert(after.join_paths() =~= m.join_paths().push(join.path));
            },
        }
        assert forall|i: int| 0 <= i < after.fields.len() implies (#[trigger] after.fields[i]).subfields
            == after.fields[i].name.contains('_') by {
            assert(after.fields[i] == m.fields[i]);
        }
    }
}

impl<H> SqlMapper<H> {
    /// The value of the field at `i`, served by its own handler or else by
    /// the mapper's.
    pub open(crate) spec fn target_view(&self, i: int) -> SqlTargetView<H> {
        let t = self.fields@[i];
        SqlTargetView {
            name: t.name@,
            expression: t.expression@,
            handler: match t.handler {
                Some(h) => h,
                None => self.handler,
            },
            options: t.options@,
            subfields: t.subfields,
        }
    }
}

impl<H> View for SqlMapper<H> {
    type V = SqlMapperView<H>;

    open(crate) spec fn view(&self) -> SqlMapperView<H> {
        SqlMapperView {
            table: self.table@,
            handler: self.handler,
            fields: Seq::new(self.fields@.len(), |i: int| self.target_view(i)),
            joins: Seq::new(self.joins@.len(), |i: int| self.joins@[i]@),
        }
    }
}

impl SqlMapper<BasicFieldHandler> {
    /// A mapper for the given table expression, such as `Book b`, whose
    /// fields are served by the [`BasicFieldHandler`].
    pub fn new(table: &str) -> (m: Self)
        ensures
            m@.table == table@,
            m@.handler == (BasicFieldHandler {  }),
            m@.fields.len() == 0,
            m@.joins.len() == 0,
            m@.wf(),
    {
        SqlMapper::new_with_handler(table, BasicFieldHandler::new())
    }
}

impl<H: FieldHandler> SqlMapper<H> {
    /// A mapper for the given table expression whose fields are served by
    /// `handler`, unless they are mapped with a handler of their own.
    pub fn new_with_handler(table: &str, handler: H) -> (m: Self)
        ensures
            m@.table == table@,
            m@.fields.len() == 0,
            m@.joins.len() == 0,
            m@.wf(),
            m@.handler == handler,
    {
        SqlMapper {
            table: String::from_str(table),
            handler,
            fields: Vec::new(),
            joins: Vec::new(),
        }
    }

    /// The place of the field `name`, if it is mapped.
    pub fn field_index(&self, name: &str) -> (r: Option<usize>)
        ensures
            match r {
                Some(i) => self@.field_index(name@) == Some(i as int) && i < self@.fields.len(),
                None => self@.field_index(name@) is None,
            },
    {
        let ghost names = self@.field_order();
        let mut found: Option<usize> = None;
        let mut i: usize = 0;
        while i < self.fields.len()
            invariant
                i <= self.fields.len(),
                names == self@.field_order(),
                match found {
                    Some(k) => index_in(names.take(i as int), name@) == Some(k as int) && k < i,
                    None => index_in(names.take(i as int), name@) is None,
                },
            decreases self.fields.len() - i,
        {
            assert(names.take(i + 1).drop_last() =~= names.take(i as int));
            if found.is_none() && same_text(self.fields[i].name.as_str(), name) {
                found = Some(i);
            }
            i = i + 1;
        }
        assert(names.take(self.fields.len() as int) =~= names);
        found
    }
}


impl<H: FieldHandler> SqlMapper<H> {
    /// Puts `target` in the place of the field of its name, or where there
    /// is none after the last field.
    fn map_target(&mut self, target: SqlTarget<H>)
        ensures
            final(self)@ == old(self)@.with_field(
                SqlTargetView {
                    name: target.name@,
                    expression: target.expression@,
                    handler: match target.handler {
                        Some(h) => h,
                        None => old(self)@.handler,
                    },
                    options: target.options@,
                    subfields: target.subfields,
                },
            ),
    {
        match self.field_index(target.name.as_str()) {
            Some(i) => {
                self.fields.set(i, target);
                assert(self@.fields =~= old(self)@.fields.update(i as int, self.target_view(i as int)));
            },
            None => {
                self.fields.push(target);
                assert(self@.fields =~= old(self)@.fields.push(
                    self.target_view(self.fields@.len() - 1),
                ));
            },
        }
        assert(self@.joins =~= old(self)@.joins);
    }

    /// Maps a field onto a column or an expression, with the given options.
    /// A field that is mapped again keeps its place among the columns.
    pub fn map_field_with_options(
        &mut self,
        field: &str,
        expression: &str,
        options: MapperOptions,
    ) -> (r: &mut Self)
        ensures
            *final(self) == *final(r),
            r@ == old(self)@.with_field(
                SqlTargetView {
                    name: field@,
                    expression: expression@,
                    handler: old(self)@.handler,
                    options: options@,
                    subfields: field@.contains('_'),
                },
            ),
            old(self)@.wf() ==> r@.wf(),
    {
        proof {
            if self@.wf() {
                SqlMapperView::lemma_with_field_wf(
                self@,
                SqlTargetView {
                    name: field@,
                    expression: expression@,
                    handler: self@.handler,
                    options: options@,
                    subfields: field@.contains('_'),
                },
            );
            }
        }
        let subfields = has_char(&to_chars(field), '_');
        self.map_target(
            SqlTarget {
                name: String::from_str(field),
                expression: String::from_str(expression),
                handler: None,
                options,
                subfields,
            },
        );
        self
    }
}


impl<H: FieldHandler> SqlMapper<H> {
    /// Maps a field onto a column or an expression, with the options of a
    /// plain field.
    pub fn map_field(&mut self, field: &str, expression: &str) -> (r: &mut Self)
        ensures
            *final(self) == *final(r),
            r@ == old(self)@.with_field(
                SqlTargetView {
                    name: field@,
                    expression: expression@,
                    handler: old(self)@.handler,
                    options: plain_options(),
                    subfields: field@.contains('_'),
                },
            ),
            old(self)@.wf() ==> r@.wf(),
    {
        self.map_field_with_options(field, expression, MapperOptions::new())
    }

    /// Maps a field onto a column, with the options of a plain field.
    pub fn map_column(&mut self, field: &str, column: &str) -> (r: &mut Self)
        ensures
            *final(self) == *final(r),
            r@ == old(self)@.with_field(
                SqlTargetView {
                    name: field@,
                    expression: column@,
                    handler: old(self)@.handler,
                    options: plain_options(),
                    subfields: field@.contains('_'),
                },
            ),
            old(self)@.wf() ==> r@.wf(),
    {
        self.map_field_with_options(field, column, MapperOptions::new())
    }

    /// Maps a field that is served by a handler of its own.
    pub fn map_handler_with_options(
        &mut self,
        field: &str,
        expression: &str,
        handler: H,
        options: MapperOptions,
    ) -> (r: &mut Self)
        ensures
            *final(self) == *final(r),
            r@ == old(self)@.with_field(
                SqlTargetView {
                    name: field@,
                    expression: expression@,
                    handler,
                    options: options@,
                    subfields: field@.contains('_'),
                },
            ),
            old(self)@.wf() ==> r@.wf(),
    {
        proof {
            if self@.wf() {
                SqlMapperView::lemma_with_field_wf(
                self@,
                SqlTargetView {
                    name: field@,
                    expression: expression@,
                    handler,
                    options: options@,
                    subfields: field@.contains('_'),
                },
            );
            }
        }
        let subfields = has_char(&to_chars(field), '_');
        self.map_target(
            SqlTarget {
                name: String::from_str(field),
                expression: String::from_str(expression),
                handler: Some(handler),
                options,
                subfields,
            },
        );
        self
    }

    /// The place of the join for `path`, if there is one.
    pub fn join_index(&self, path: &str) -> (r: Option<usize>)
        ensures
            match r {
                Some(i) => self@.join_index(path@) == Some(i as int) && i < self@.joins.len(),
                None => self@.join_index(path@) is None,
            },
    {
        let ghost paths = self@.join_paths();
        let mut found: Option<usize> = None;
        let mut i: usize = 0;
        while i < self.joins.len()
            invariant
                i <= self.joins.len(),
                paths == self@.join_paths(),
                match found {
                    Some(k) => index_in(paths.take(i as int), path@) == Some(k as int) && k < i,
                    None => index_in(paths.take(i as int), path@) is None,
                },
            decreases self.joins.len() - i,
        {
            assert(paths.take(i + 1).drop_last() =~= paths.take(i as int));
            if found.is_none() && same_text(self.joins[i].path.as_str(), path) {
                found = Some(i);
            }
            i = i + 1;
        }
        assert(paths.take(self.joins.len() as int) =~= paths);
        found
    }

    /// Maps the join clause for a path segment: every field whose path holds
    /// the segment brings the clause into the SQL, once. A segment that is
    /// mapped again keeps its place among the joins.
    pub fn map_join(&mut self, path: &str, join_clause: &str) -> (r: &mut Self)
        ensures
            *final(self) == *final(r),
            r@ == old(self)@.with_join(JoinView { path: path@, join_clause: join_clause@ }),
            old(self)@.wf() ==> r@.wf(),
    {
        proof {
            if self@.wf() {
                SqlMapperView::lemma_with_join_wf(
                    self@,
                    JoinView { path: path@, join_clause: join_clause@ },
                );
            }
        }
        let join = Join {
            path: String::from_str(path),
            join_clause: String::from_str(join_clause),
        };
        match self.join_index(path) {
            Some(i) => {
                self.joins.set(i, join);
                assert(self@.joins =~= old(self)@.joins.update(i as int, join@));
            },
            None => {
                self.joins.push(join);
                assert(self@.joins =~= old(self)@.joins.push(join@));
            },
        }
        assert(self@.fields =~= old(self)@.fields);
        self
    }

    /// The table expression that the mapper was made for.
    pub fn table(&self) -> (t: &str)
        ensures
            t@ == self@.table,
    {
        self.table.as_str()
    }
}


/// The mappers of an application by the names of their structs. It is filled
/// at the start and handed to whoever builds SQL.
pub struct SqlMapperRegistry<H> {
    pub(crate) mappers: Vec<(String, SqlMapper<H>)>,
}

/// The mathematical value of a [`SqlMapperRegistry`]: names with their
/// mappers, in the order the names came.
pub struct SqlMapperRegistryView<H> {
    pub mappers: Seq<(Seq<char>, SqlMapperView<H>)>,
}

impl<H> SqlMapperRegistryView<H> {
    /// The names that have a mapper.
    pub open spec fn names(self) -> Seq<Seq<char>> {
        Seq::new(self.mappers.len(), |i: int| self.mappers[i].0)
    }

    /// The mapper of a name, if it has one.
    pub open spec fn mapper(self, name: Seq<char>) -> Option<SqlMapperView<H>> {
        match index_in(self.names(), name) {
            Some(i) => Some(self.mappers[i].1),
            None => None,
        }
    }

    /// The registry with `mapper` for `name`: in the place of the mapper
    /// that the name had, or where it had none as the last.
    pub open spec fn with_mapper(self, name: Seq<char>, mapper: SqlMapperView<H>) -> Self {
        SqlMapperRegistryView {
            mappers: match index_in(self.names(), name) {
                Some(i) => self.mappers.update(i, (name, mapper)),
                None => self.mappers.push((name, mapper)),
            },
        }
    }
}

impl<H> View for SqlMapperRegistry<H> {
    type V = SqlMapperRegistryView<H>;

    open(crate) spec fn view(&self) -> SqlMapperRegistryView<H> {
        SqlMapperRegistryView {
            mappers: Seq::new(
                self.mappers@.len(),
                |i: int| (self.mappers@[i].0@, self.mappers@[i].1@),
            ),
        }
    }
}

impl<H: FieldHandler> SqlMapperRegistry<H> {
    /// A registry without mappers.
    pub fn new() -> (r: Self)
        ensures
            r@.mappers.len() == 0,
    {
        SqlMapperRegistry { mappers: Vec::new() }
    }

    /// The place of the mapper for `name`, if there is one.
    fn index(&self, name: &str) -> (r: Option<usize>)
        ensures
            match r {
                Some(i) => index_in(self@.names(), name@) == Some(i as int) && i
                    < self@.mappers.len(),
                None => index_in(self@.names(), name@) is None,
            },
    {
        let ghost names = self@.names();
        let mut found: Option<usize> = None;
        let mut i: usize = 0;
        while i < self.mappers.len()
            invariant
                i <= self.mappers.len(),
                names == self@.names(),
                match found {
                    Some(k) => index_in(names.take(i as int), name@) == Some(k as int) && k < i,
                    None => index_in(names.take(i as int), name@) is None,
                },
            decreases self.mappers.len() - i,
        {
            assert(names.take(i + 1).drop_last() =~= names.take(i as int));
            if found.is_none() && same_text(self.mappers[i].0.as_str(), name) {
                found = Some(i);
            }
            i = i + 1;
        }
        assert(names.take(self.mappers.len() as int) =~= names);
        found
    }

    /// Sets the mapper for a name. A name that had a mapper keeps its
    /// place.
    pub fn insert(&mut self, name: &str, mapper: SqlMapper<H>)
        ensures
            final(self)@ == old(self)@.with_mapper(name@, mapper@),
    {
        match self.index(name) {
            Some(i) => {
                self.mappers.set(i, (String::from_str(name), mapper));
                assert(self@.mappers =~= old(self)@.mappers.update(i as int, (name@, mapper@)));
            },
            None => {
                self.mappers.push((String::from_str(name), mapper));
                assert(self@.mappers =~= old(self)@.mappers.push((name@, mapper@)));
            },
        }
    }

    /// The mapper for a name, or `MapperMissing` with the name where there
    /// is none.
    pub fn get(&self, name: &str) -> (r: Result<&SqlMapper<H>, ToqlError>)
        ensures
            match r {
                Ok(mapper) => self@.mapper(name@) == Some(mapper@),
                Err(e) => self@.mapper(name@) is None && e@ == ToqlErrorView::MapperMissing(
                    name@,
                ),
            },
    {
        match self.index(name) {
            Some(i) => Ok(&self.mappers[i].1),
            None => Err(ToqlError::MapperMissing(String::from_str(name))),
        }
    }
}

} // verus!
