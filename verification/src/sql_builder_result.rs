//! The result of the SQL builder: the clauses of a SELECT and the parameters
//! bound in them.

use crate::query::Concatenation;
use crate::text::{decimal, lemma_views_push, push_char, push_decimal, to_chars, views};
use vstd::prelude::*;

verus! {

/// The clauses that the SQL builder made from a query, and the parameters
/// for their placeholders.
#[derive(Debug, Clone, PartialEq, Eq)]
pub struct SqlBuilderResult {
    pub(crate) table: String,
    pub(crate) any_selected: bool,
    pub(crate) distinct: bool,
    pub(crate) join_clause: String,
    pub(crate) select_clause: String,
    pub(crate) where_clause: String,
    pub(crate) order_by_clause: String,
    pub(crate) having_clause: String,
    pub(crate) where_params: Vec<String>,
    pub(crate) having_params: Vec<String>,
}

/// The mathematical value of a [`SqlBuilderResult`].
pub struct SqlBuilderResultView {
    pub table: Seq<char>,
    pub any_selected: bool,
    pub distinct: bool,
    pub join_clause: Seq<char>,
    pub select_clause: Seq<char>,
    pub where_clause: Seq<char>,
    pub order_by_clause: Seq<char>,
    pub having_clause: Seq<char>,
    pub where_params: Seq<Seq<char>>,
    pub having_params: Seq<Seq<char>>,
}

impl View for SqlBuilderResult {
    type V = SqlBuilderResultView;

    open(crate) spec fn view(&self) -> SqlBuilderResultView {
        SqlBuilderResultView {
            table: self.table@,
            any_selected: self.any_selected,
            distinct: self.distinct,
            join_clause: self.join_clause@,
            select_clause: self.select_clause@,
            where_clause: self.where_clause@,
            order_by_clause: self.order_by_clause@,
            having_clause: self.having_clause@,
            where_params: views(self.where_params@),
            having_params: views(self.having_params@),
        }
    }
}

/// `keyword` and `clause`, or nothing where the clause is empty.
pub open spec fn optional_clause(keyword: Seq<char>, clause: Seq<char>) -> Seq<char> {
    if clause.len() == 0 {
        Seq::empty()
    } else {
        keyword + clause
    }
}

/// `n` opening brackets.
pub open spec fn parens(n: nat) -> Seq<char> {
    Seq::new(n, |i: int| '(')
}

/// The SQL word for a concatenation, with a space on either side; nothing
/// for none.
pub open spec fn concatenation_sql(c: Option<Concatenation>) -> Seq<char> {
    match c {
        Some(Concatenation::And) => " AND "@,
        Some(Concatenation::Or) => " OR "@,
        None => Seq::empty(),
    }
}

impl SqlBuilderResultView {
    /// Nothing is selected and nothing is filtered.
    pub open spec fn is_empty(self) -> bool {
        !self.any_selected && self.where_clause.len() == 0 && self.having_clause.len() == 0
    }

    /// What follows `SELECT `: the selected expressions, the table, and each
    /// further clause that is not empty.
    pub open spec fn sql_body(self) -> Seq<char> {
        (if self.distinct {
            " DISTINCT "@
        } else {
            Seq::empty()
        }) + self.select_clause + " FROM "@ + self.table + optional_clause(" "@, self.join_clause)
            + optional_clause(" WHERE "@, self.where_clause) + optional_clause(
            " HAVING "@,
            self.having_clause,
        ) + optional_clause(" ORDER BY "@, self.order_by_clause)
    }

    /// The plain SELECT statement.
    pub open spec fn sql(self) -> Seq<char> {
        "SELECT "@ + self.sql_body()
    }

    /// The SELECT statement with an optimizer hint after `SELECT` and a
    /// `LIMIT` clause at the end.
    pub open spec fn sql_paginated(self, hint: Seq<char>, offset: nat, max: nat) -> Seq<char> {
        "SELECT "@ + (if hint.len() == 0 {
            Seq::empty()
        } else {
            hint + " "@
        }) + self.sql_body() + " LIMIT "@ + decimal(offset) + ","@ + decimal(max)
    }

    /// The DELETE statement for the rows that the query filters: it deletes
    /// from the table what is known there as `alias`, with the joins and the
    /// WHERE clause of the query.
    pub open spec fn delete_sql(self, alias: Seq<char>) -> Seq<char> {
        "DELETE "@ + alias + " FROM "@ + self.table + optional_clause(" "@, self.join_clause)
            + optional_clause(" WHERE "@, self.where_clause)
    }

    /// The parameters of WHERE, then those of HAVING.
    pub open spec fn params(self) -> Seq<Seq<char>> {
        self.where_params + self.having_params
    }
}

/// The parameters of a result are those of WHERE where HAVING has none, and
/// those of HAVING where WHERE has none.
pub proof fn lemma_params_of_one_clause(r: SqlBuilderResultView)
    ensures
        r.having_params.len() == 0 ==> r.params() == r.where_params,
        r.where_params.len() == 0 ==> r.params() == r.having_params,
{
    if r.having_params.len() == 0 {
        assert(r.params() =~= r.where_params);
    }
    if r.where_params.len() == 0 {
        assert(r.params() =~= r.having_params);
    }
}

/// Appends `keyword` and `clause` to `s`, unless the clause is empty.
fn push_optional(s: &mut String, keyword: &str, clause: &String)
    ensures
        final(s)@ == old(s)@ + optional_clause(keyword@, clause@),
{
    if !clause.as_str().is_empty() {
        s.append(keyword);
        s.append(clause.as_str());
        assert(s@ =~= old(s)@ + (keyword@ + clause@));
    } else {
        assert(s@ =~= old(s)@ + Seq::<char>::empty());
    }
}

impl SqlBuilderResult {
    /// Whether nothing is selected and nothing is filtered: such a query
    /// need not be run.
    pub fn is_empty(&self) -> (b: bool)
        ensures
            b == self@.is_empty(),
    {
        !self.any_selected && self.where_clause.as_str().is_empty()
            && self.having_clause.as_str().is_empty()
    }

    fn sql_body(&self, s: &mut String)
        ensures
            final(s)@ == old(s)@ + self@.sql_body(),
    {
        let ghost before = s@;
        let ghost r = self@;
        let ghost distinct = if r.distinct {
            " DISTINCT "@
        } else {
            Seq::<char>::empty()
        };
        if self.distinct {
            s.append(" DISTINCT ");
        }
        assert(s@ =~= before + distinct);
        s.append(self.select_clause.as_str());
        let ghost b1 = distinct + r.select_clause;
        assert(s@ =~= before + b1);
        s.append(" FROM ");
        let ghost b2 = b1 + " FROM "@;
        assert(s@ =~= before + b2);
        s.append(self.table.as_str());
        let ghost b3 = b2 + r.table;
        assert(s@ =~= before + b3);
        push_optional(s, " ", &self.join_clause);
        let ghost b4 = b3 + optional_clause(" "@, r.join_clause);
        assert(s@ =~= before + b4);
        push_optional(s, " WHERE ", &self.where_clause);
        let ghost b5 = b4 + optional_clause(" WHERE "@, r.where_clause);
        assert(s@ =~= before + b5);
        push_optional(s, " HAVING ", &self.having_clause);
        let ghost b6 = b5 + optional_clause(" HAVING "@, r.having_clause);
        assert(s@ =~= before + b6);
        push_optional(s, " ORDER BY ", &self.order_by_clause);
        let ghost b7 = b6 + optional_clause(" ORDER BY "@, r.order_by_clause);
        assert(s@ =~= before + b7);
        assert(b7 == r.sql_body());
    }

    /// The SELECT statement for one page of the result: with `hint` after
    /// `SELECT`, unless it is empty, and with `LIMIT offset,max` at the end.
    pub fn to_sql_paginated(&self, hint: &str, offset: u64, max: u16) -> (s: String)
        ensures
            s@ == self@.sql_paginated(hint@, offset as nat, max as nat),
    {
        let mut s = String::from_str("SELECT ");
        if !hint.is_empty() {
            s.append(hint);
            s.append(" ");
        }
        self.sql_body(&mut s);
        s.append(" LIMIT ");
        push_decimal(&mut s, offset as u128);
        s.append(",");
        push_decimal(&mut s, max as u128);
        assert(s@ =~= self@.sql_paginated(hint@, offset as nat, max as nat));
        s
    }

    /// The paginated SELECT statement in the dialect of MySQL.
    pub fn to_sql_for_mysql(&self, hint: &str, offset: u64, max: u16) -> (s: String)
        ensures
            s@ == self@.sql_paginated(hint@, offset as nat, max as nat),
    {
        self.to_sql_paginated(hint, offset, max)
    }

    /// The DELETE statement for the rows that the query filters. Its
    /// placeholders are those of WHERE.
    pub fn to_delete_sql(&self, alias: &str) -> (s: String)
        ensures
            s@ == self@.delete_sql(alias@),
    {
        let mut s = String::from_str("DELETE ");
        s.append(alias);
        s.append(" FROM ");
        s.append(self.table.as_str());
        push_optional(&mut s, " ", &self.join_clause);
        push_optional(&mut s, " WHERE ", &self.where_clause);
        assert(s@ =~= self@.delete_sql(alias@));
        s
    }

    /// The plain SELECT statement.
    pub fn to_sql(&self) -> (s: String)
        ensures
            s@ == self@.sql(),
    {
        let mut s = String::from_str("SELECT ");
        self.sql_body(&mut s);
        s
    }

    /// The parameters for the placeholders of the statement, in the order of
    /// the placeholders: those of WHERE, then those of HAVING.
    pub fn params(&self) -> (ps: Vec<String>)
        ensures
            views(ps@) == self@.params(),
    {
        let mut ps: Vec<String> = Vec::new();
        let mut i: usize = 0;
        assert(views(ps@) =~= Seq::<Seq<char>>::empty());
        while i < self.where_params.len()
            invariant
                i <= self.where_params.len(),
                views(ps@) == self@.where_params.take(i as int),
            decreases self.where_params.len() - i,
        {
            let p = self.where_params[i].clone();
            proof {
                lemma_views_push(ps@, p);
            }
            ps.push(p);
            assert(views(ps@) =~= self@.where_params.take(i + 1));
            i = i + 1;
        }
        assert(self@.where_params.take(i as int) =~= self@.where_params);
        let mut j: usize = 0;
        while j < self.having_params.len()
            invariant
                j <= self.having_params.len(),
                views(ps@) == self@.where_params + self@.having_params.take(j as int),
            decreases self.having_params.len() - j,
        {
            let p = self.having_params[j].clone();
            proof {
                lemma_views_push(ps@, p);
            }
            ps.push(p);
            assert(views(ps@) =~= self@.where_params + self@.having_params.take(j + 1));
            j = j + 1;
        }
        assert(self@.having_params.take(j as int) =~= self@.having_params);
        ps
    }

    /// Appends the opening brackets that are still owed to a clause.
    pub(crate) fn push_pending_parens(clause: &mut String, pending_parens: usize)
        ensures
            final(clause)@ == old(clause)@ + parens(pending_parens as nat),
    {
        let mut n: usize = 0;
        assert(clause@ =~= old(clause)@ + parens(0));
        while n < pending_parens
            invariant
                n <= pending_parens,
                clause@ == old(clause)@ + parens(n as nat),
            decreases pending_parens - n,
        {
            push_char(clause, '(');
            n = n + 1;
            assert(clause@ =~= old(clause)@ + parens(n as nat));
        }
    }

    /// Appends the SQL word for a concatenation to a clause.
    pub(crate) fn push_concatenation(clause: &mut String, pending_concatenation: &Option<Concatenation>)
        ensures
            final(clause)@ == old(clause)@ + concatenation_sql(*pending_concatenation),
    {
        match pending_concatenation {
            Some(Concatenation::And) => clause.append(" AND "),
            Some(Concatenation::Or) => clause.append(" OR "),
            None => {
                assert(clause@ =~= old(clause)@ + Seq::<char>::empty());
            },
        }
    }

    /// Appends a filter to a clause.
    pub(crate) fn push_filter(clause: &mut String, filter: &str)
        ensures
            final(clause)@ == old(clause)@ + filter@,
    {
        clause.append(filter);
    }
}


/// A statement with its parameters written in place of its placeholders:
/// the first parameter for the first `?`, and so on; a `?` for which no
/// parameter is left stays.
pub open spec fn with_params(sql: Seq<char>, params: Seq<Seq<char>>) -> Seq<char>
    decreases sql.len(),
{
    if sql.len() == 0 {
        Seq::empty()
    } else if sql[0] == '?' && params.len() > 0 {
        params[0] + with_params(sql.skip(1), params.skip(1))
    } else {
        seq![sql[0]] + with_params(sql.skip(1), params)
    }
}

/// Writes the parameters of a statement in place of its placeholders. The
/// parameters are written as they are, without quotes and without escapes:
/// the result is for logs and tests, not for a database.
pub fn unsafe_sql(sql: &str, params: &Vec<String>) -> (s: String)
    ensures
        s@ == with_params(sql@, views(params@)),
{
    let chars = to_chars(sql);
    let ghost all = views(params@);
    let mut s = String::new();
    let mut i: usize = 0;
    let mut k: usize = 0;
    assert(chars@.skip(0) =~= chars@);
    assert(all.skip(0) =~= all);
    while i < chars.len()
        invariant
            i <= chars.len(),
            k <= params.len(),
            chars@ == sql@,
            all == views(params@),
            with_params(sql@, all) == s@ + with_params(chars@.skip(i as int), all.skip(k as int)),
        decreases chars.len() - i,
    {
        let ghost rest = chars@.skip(i as int);
        let ghost left = all.skip(k as int);
        assert(rest[0] == chars@[i as int]);
        assert(rest.skip(1) =~= chars@.skip(i + 1));
        if chars[i] == '?' && k < params.len() {
            assert(left[0] == params@[k as int]@);
            assert(left.skip(1) =~= all.skip(k + 1));
            s.append(params[k].as_str());
            k = k + 1;
            assert(with_params(sql@, all) =~= s@ + with_params(
                chars@.skip(i + 1),
                all.skip(k as int),
            ));
        } else {
            push_char(&mut s, chars[i]);
            assert(with_params(sql@, all) =~= s@ + with_params(
                chars@.skip(i + 1),
                all.skip(k as int),
            ));
        }
        i = i + 1;
    }
    assert(s@ + Seq::<char>::empty() =~= s@);
    s
}

} // verus!
