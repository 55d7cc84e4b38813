//! The metadata store's query builder. The store itself is a table
//! `file(path, metadata, ts)` with one JSON object of fields per path; this
//! module writes the SQL text that reads and trims it.
use vstd::prelude::*;
use crate::metadata::views;
use crate::multi_gallery::rows_for;
use crate::text::{chars_of, string_of, append_str, push_range, join_with, join_strings};

verus! {

/// How a filter compares a field with a value.
#[derive(PartialEq, Eq, Structural, Clone, Copy, Debug)]
pub enum SqlOperator {
    Like,
    Eq,
    BiggerThan,
    SmallerThan,
    EqBiggerThan,
    EqSmallerThan,
    Different,
}

/// The direction of an ordering.
#[derive(PartialEq, Eq, Structural, Clone, Copy, Debug)]
pub enum SqlOrder {
    Asc,
    Desc,
}

/// The SQL comparison symbol of an operator other than `Like`.
pub open spec fn operator_symbol(op: SqlOperator) -> Seq<char> {
    match op {
        SqlOperator::Like => "like"@,
        SqlOperator::Eq => "="@,
        SqlOperator::BiggerThan => ">"@,
        SqlOperator::SmallerThan => "<"@,
        SqlOperator::EqBiggerThan => ">="@,
        SqlOperator::EqSmallerThan => "<="@,
        SqlOperator::Different => "<>"@,
    }
}

impl SqlOperator {
    pub fn list() -> (r: Vec<SqlOperator>)
        ensures
            r@ == seq![
                SqlOperator::Like,
                SqlOperator::Eq,
                SqlOperator::BiggerThan,
                SqlOperator::SmallerThan,
                SqlOperator::EqBiggerThan,
                SqlOperator::EqSmallerThan,
                SqlOperator::Different,
            ],
    {
        vec![
            SqlOperator::Like,
            SqlOperator::Eq,
            SqlOperator::BiggerThan,
            SqlOperator::SmallerThan,
            SqlOperator::EqBiggerThan,
            SqlOperator::EqSmallerThan,
            SqlOperator::Different,
        ]
    }

    /// The operator's name as a filter form shows it.
    pub fn label(&self) -> (r: &'static str)
        ensures
            r@ == match *self {
                SqlOperator::Like => "In"@,
                _ => operator_symbol(*self),
            },
    {
        match self {
            SqlOperator::Like => "In",
            SqlOperator::Eq => "=",
            SqlOperator::BiggerThan => ">",
            SqlOperator::SmallerThan => "<",
            SqlOperator::EqBiggerThan => ">=",
            SqlOperator::EqSmallerThan => "<=",
            SqlOperator::Different => "<>",
        }
    }

    fn symbol(&self) -> (r: &'static str)
        ensures
            r@ == operator_symbol(*self),
    {
        match self {
            SqlOperator::Like => "like",
            SqlOperator::Eq => "=",
            SqlOperator::BiggerThan => ">",
            SqlOperator::SmallerThan => "<",
            SqlOperator::EqBiggerThan => ">=",
            SqlOperator::EqSmallerThan => "<=",
            SqlOperator::Different => "<>",
        }
    }
}

impl SqlOrder {
    pub fn list() -> (r: Vec<SqlOrder>)
        ensures
            r@ == seq![SqlOrder::Asc, SqlOrder::Desc],
    {
        vec![SqlOrder::Asc, SqlOrder::Desc]
    }

    pub fn get_sql(&self) -> (r: String)
        ensures
            r@ == match *self {
                SqlOrder::Asc => "ASC"@,
                SqlOrder::Desc => "DESC"@,
            },
    {
        match self {
            SqlOrder::Asc => String::from_str("ASC"),
            SqlOrder::Desc => String::from_str("DESC"),
        }
    }

    /// The order's name as a filter form shows it.
    pub fn label(&self) -> (r: &'static str)
        ensures
            r@ == match *self {
                SqlOrder::Asc => "Ascending"@,
                SqlOrder::Desc => "Descending"@,
            },
    {
        match self {
            SqlOrder::Asc => "Ascending",
            SqlOrder::Desc => "Descending",
        }
    }
}

/// Where a scan of a decimal number stands.
#[derive(PartialEq, Eq, Structural, Clone, Copy, Debug)]
pub enum NumberScan {
    Start,
    Signed,
    Int,
    Dot,
    Frac,
    Exp,
    ExpSigned,
    ExpDigits,
    Reject,
}

pub open spec fn is_digit(c: char) -> bool {
    '0' <= c <= '9'
}

/// One step of the decimal number grammar
/// `[+-]? (d+ | d+ '.' d* | d* '.' d+) ([eE] [+-]? d+)?`.
pub open spec fn scan_step(st: NumberScan, c: char) -> NumberScan {
    match st {
        NumberScan::Start => if c == '+' || c == '-' {
            NumberScan::Signed
        } else if is_digit(c) {
            NumberScan::Int
        } else if c == '.' {
            NumberScan::Dot
        } else {
            NumberScan::Reject
        },
        NumberScan::Signed => if is_digit(c) {
            NumberScan::Int
        } else if c == '.' {
            NumberScan::Dot
        } else {
            NumberScan::Reject
        },
        NumberScan::Int => if is_digit(c) {
            NumberScan::Int
        } else if c == '.' {
            NumberScan::Frac
        } else if c == 'e' || c == 'E' {
            NumberScan::Exp
        } else {
            NumberScan::Reject
        },
        NumberScan::Dot => if is_digit(c) {
            NumberScan::Frac
        } else {
            NumberScan::Reject
        },
        NumberScan::Frac => if is_digit(c) {
            NumberScan::Frac
        } else if c == 'e' || c == 'E' {
            NumberScan::Exp
        } else {
            NumberScan::Reject
        },
        NumberScan::Exp => if c == '+' || c == '-' {
            NumberScan::ExpSigned
        } else if is_digit(c) {
            NumberScan::ExpDigits
        } else {
            NumberScan::Reject
        },
        NumberScan::ExpSigned => if is_digit(c) {
            NumberScan::ExpDigits
        } else {
            NumberScan::Reject
        },
        NumberScan::ExpDigits => if is_digit(c) {
            NumberScan::ExpDigits
        } else {
            NumberScan::Reject
        },
        NumberScan::Reject => NumberScan::Reject,
    }
}

pub open spec fn scan(s: Seq<char>) -> NumberScan
    decreases s.len(),
{
    if s.len() == 0 {
        NumberScan::Start
    } else {
        scan_step(scan(s.drop_last()), s.last())
    }
}

pub open spec fn ascii_lower(c: char) -> char {
    if 'A' <= c <= 'Z' {
        ((c as u32) + 32) as char
    } else {
        c
    }
}

/// `s` without one leading sign.
pub open spec fn unsigned_part(s: Seq<char>) -> Seq<char> {
    if s.len() > 0 && (s[0] == '+' || s[0] == '-') {
        s.drop_first()
    } else {
        s
    }
}

/// Whether `s` is the text of a floating point number as the standard
/// library reads one: a decimal number, or `inf`, `infinity` or `nan` in
/// any case, each with an optional sign.
pub open spec fn is_float_text(s: Seq<char>) -> bool {
    let t = unsigned_part(s).map_values(|c: char| ascii_lower(c));
    ||| scan(s) == NumberScan::Int
    ||| scan(s) == NumberScan::Frac
    ||| scan(s) == NumberScan::ExpDigits
    ||| t == "inf"@
    ||| t == "infinity"@
    ||| t == "nan"@
}

fn scan_step_exec(st: NumberScan, c: char) -> (r: NumberScan)
    ensures
        r == scan_step(st, c),
{
    let digit = '0' <= c && c <= '9';
    match st {
        NumberScan::Start => if c == '+' || c == '-' {
            NumberScan::Signed
        } else if digit {
            NumberScan::Int
        } else if c == '.' {
            NumberScan::Dot
        } else {
            NumberScan::Reject
        },
        NumberScan::Signed => if digit {
            NumberScan::Int
        } else if c == '.' {
            NumberScan::Dot
        } else {
            NumberScan::Reject
        },
        NumberScan::Int => if digit {
            NumberScan::Int
        } else if c == '.' {
            NumberScan::Frac
        } else if c == 'e' || c == 'E' {
            NumberScan::Exp
        } else {
            NumberScan::Reject
        },
        NumberScan::Dot => if digit {
            NumberScan::Frac
        } else {
            NumberScan::Reject
        },
        NumberScan::Frac => if digit {
            NumberScan::Frac
        } else if c == 'e' || c == 'E' {
            NumberScan::Exp
        } else {
            NumberScan::Reject
        },
        NumberScan::Exp => if c == '+' || c == '-' {
            NumberScan::ExpSigned
        } else if digit {
            NumberScan::ExpDigits
        } else {
            NumberScan::Reject
        },
        NumberScan::ExpSigned => if digit {
            NumberScan::ExpDigits
        } else {
            NumberScan::Reject
        },
        NumberScan::ExpDigits => if digit {
            NumberScan::ExpDigits
        } else {
            NumberScan::Reject
        },
        NumberScan::Reject => NumberScan::Reject,
    }
}

fn ascii_lower_exec(c: char) -> (r: char)
    ensures
        r == ascii_lower(c),
{
    if 'A' <= c && c <= 'Z' {
        ((c as u32) + 32) as u8 as char
    } else {
        c
    }
}

/// Whether `v[from..]`, ASCII letters lower-cased, spells `word`.
fn spells_from(v: &Vec<char>, from: usize, word: &str) -> (r: bool)
    requires
        from <= v@.len(),
    ensures
        r == (v@.subrange(from as int, v@.len() as int).map_values(|c: char| ascii_lower(c))
            == word@),
{
    let w = chars_of(word);
    let ghost t = v@.subrange(from as int, v@.len() as int).map_values(|c: char| ascii_lower(c));
    if v.len() - from != w.len() {
        return false;
    }
    let n = v.len();
    let mut i: usize = 0;
    while i < w.len()
        invariant
            n == v@.len(),
            t == v@.subrange(from as int, v@.len() as int).map_values(|c: char| ascii_lower(c)),
            w@ == word@,
            from + w@.len() == v@.len(),
            i <= w@.len(),
            forall|j: int| 0 <= j < i ==> t[j] == w@[j],
        decreases w@.len() - i,
    {
        if ascii_lower_exec(v[from + i]) != w[i] {
            return false;
        }
        i = i + 1;
    }
    proof {
        assert(t =~= w@);
    }
    true
}

/// Whether `s` reads as a floating point number.
pub fn is_float_literal(s: &str) -> (r: bool)
    ensures
        r == is_float_text(s@),
{
    let v = chars_of(s);
    let mut st = NumberScan::Start;
    let mut i: usize = 0;
    proof {
        assert(v@.subrange(0, 0) == Seq::<char>::empty());
    }
    while i < v.len()
        invariant
            i <= v@.len(),
            st == scan(v@.subrange(0, i as int)),
        decreases v@.len() - i,
    {
        proof {
            assert(v@.subrange(0, i + 1).drop_last() == v@.subrange(0, i as int));
        }
        st = scan_step_exec(st, v[i]);
        i = i + 1;
    }
    proof {
        assert(v@.subrange(0, v@.len() as int) == v@);
    }
    if st == NumberScan::Int || st == NumberScan::Frac || st == NumberScan::ExpDigits {
        return true;
    }
    let from: usize = if v.len() > 0 && (v[0] == '+' || v[0] == '-') {
        1
    } else {
        0
    };
    proof {
        assert(unsigned_part(v@) == v@.subrange(from as int, v@.len() as int));
    }
    spells_from(&v, from, "inf") || spells_from(&v, from, "infinity") || spells_from(&v, from, "nan")
}

/// The condition a filter puts on a field, as SQL with one `?` and the
/// value bound to it: `Like` matches a substring; the other operators
/// compare as numbers where the value reads as a number, else as text.
pub open spec fn where_clause(val: Seq<char>, op: SqlOperator) -> (Seq<char>, Seq<char>) {
    if op == SqlOperator::Like {
        ("like ?"@, "%"@ + val + "%"@)
    } else if is_float_text(val) {
        ("+0 "@ + operator_symbol(op) + " (? + 0)"@, val)
    } else {
        (operator_symbol(op) + " ?"@, val)
    }
}

/// The strings, each in double quotes, separated by `", "`.
pub open spec fn quoted_list(strings: Seq<Seq<char>>) -> Seq<char> {
    "\""@ + join_with(strings, "\", \""@) + "\""@
}

/// A query with `?` placeholders and the values bound to them, in order.
#[derive(Clone, Debug)]
pub struct SqlQuery {
    pub sql: String,
    pub params: Vec<String>,
}

pub struct DbUtilities {}

impl DbUtilities {
    pub fn arr_param_from(strings: &[String]) -> (r: String)
        ensures
            r@ == quoted_list(strings@.map_values(|s: String| s@)),
    {
        let mut v: Vec<String> = Vec::new();
        let mut i: usize = 0;
        while i < strings.len()
            invariant
                i <= strings@.len(),
                v@ == strings@.subrange(0, i as int),
            decreases strings@.len() - i,
        {
            v.push(strings[i].clone());
            proof {
                assert(strings@.subrange(0, i + 1) == strings@.subrange(0, i as int).push(
                    strings@[i as int],
                ));
            }
            i = i + 1;
        }
        proof {
            assert(strings@.subrange(0, strings@.len() as int) == strings@);
        }
        let mut out: Vec<char> = Vec::new();
        append_str(&mut out, "\"");
        let body = join_strings(&v, "\", \"");
        push_range(&mut out, &body, 0, body.len());
        append_str(&mut out, "\"");
        proof {
            assert(body@.subrange(0, body@.len() as int) == body@);
        }
        string_of(out.as_slice())
    }

    pub fn where_clause_from_str_and_operator(val: &str, operator: &SqlOperator) -> (r: (
        String,
        String,
    ))
        ensures
            (r.0@, r.1@) == where_clause(val@, *operator),
    {
        let mut sql: Vec<char> = Vec::new();
        let mut param: Vec<char> = Vec::new();
        if *operator == SqlOperator::Like {
            append_str(&mut sql, "like ?");
            append_str(&mut param, "%");
            append_str(&mut param, val);
            append_str(&mut param, "%");
        } else if is_float_literal(val) {
            append_str(&mut sql, "+0 ");
            append_str(&mut sql, operator.symbol());
            append_str(&mut sql, " (? + 0)");
            append_str(&mut param, val);
        } else {
            append_str(&mut sql, operator.symbol());
            append_str(&mut sql, " ?");
            append_str(&mut param, val);
        }
        proof {
            assert(Seq::<char>::empty() + "like ?"@ == "like ?"@);
            assert(Seq::<char>::empty() + "%"@ == "%"@);
            assert(Seq::<char>::empty() + val@ == val@);
            assert(Seq::<char>::empty() + "+0 "@ == "+0 "@);
        }
        (string_of(sql.as_slice()), string_of(param.as_slice()))
    }
}

/// The JSON path of a field in the stored object.
pub open spec fn field_path(tag: Seq<char>) -> Seq<char> {
    "$."@ + tag
}

/// The filters whose value is not empty, in order.
pub open spec fn used_filters(tags: Seq<(Seq<char>, Seq<char>, SqlOperator)>) -> Seq<
    (Seq<char>, Seq<char>, SqlOperator),
>
    decreases tags.len(),
{
    if tags.len() == 0 {
        seq![]
    } else {
        let r = used_filters(tags.drop_last());
        if tags.last().1.len() == 0 {
            r
        } else {
            r.push(tags.last())
        }
    }
}

/// The SQL condition of one filter.
pub open spec fn filter_condition(val: Seq<char>, op: SqlOperator) -> Seq<char> {
    "json_extract(metadata, ?) "@ + where_clause(val, op).0
}

/// The conditions of the filters, in order.
pub open spec fn filter_conditions(used: Seq<(Seq<char>, Seq<char>, SqlOperator)>) -> Seq<Seq<char>>
    decreases used.len(),
{
    if used.len() == 0 {
        seq![]
    } else {
        filter_conditions(used.drop_last()).push(filter_condition(used.last().1, used.last().2))
    }
}

/// The values bound to the conditions: for each filter its field's path,
/// then its value.
pub open spec fn filter_params(used: Seq<(Seq<char>, Seq<char>, SqlOperator)>) -> Seq<Seq<char>>
    decreases used.len(),
{
    if used.len() == 0 {
        seq![]
    } else {
        filter_params(used.drop_last()).push(field_path(used.last().0)).push(
            where_clause(used.last().1, used.last().2).1,
        )
    }
}

pub open spec fn order_sql(o: SqlOrder) -> Seq<char> {
    match o {
        SqlOrder::Asc => "ASC"@,
        SqlOrder::Desc => "DESC"@,
    }
}

/// The query text for the distinct paths that meet every filter whose
/// value is not empty, ordered by a field where one is named.
pub open spec fn filter_query_sql(
    tags: Seq<(Seq<char>, Seq<char>, SqlOperator)>,
    order_tag: Seq<char>,
    order: SqlOrder,
) -> Seq<char> {
    "SELECT distinct(path) FROM file WHERE "@ + join_with(
        filter_conditions(used_filters(tags)),
        " AND "@,
    ) + if order_tag.len() > 0 {
        " ORDER BY json_extract(metadata, ?) "@ + order_sql(order)
    } else {
        Seq::empty()
    }
}

/// The values bound to that query, in the order of its placeholders.
pub open spec fn filter_query_params(
    tags: Seq<(Seq<char>, Seq<char>, SqlOperator)>,
    order_tag: Seq<char>,
) -> Seq<Seq<char>> {
    filter_params(used_filters(tags)) + if order_tag.len() > 0 {
        seq![field_path(order_tag)]
    } else {
        Seq::empty()
    }
}

pub open spec fn filter_views(tags: Seq<(String, String, SqlOperator)>) -> Seq<
    (Seq<char>, Seq<char>, SqlOperator),
> {
    tags.map_values(|t: (String, String, SqlOperator)| (t.0@, t.1@, t.2))
}

/// The number of paths an existence query names at most.
pub const IN_CHUNK: usize = 500;

/// The text of a query for which of `k` bound paths the store holds.
pub open spec fn existence_sql(k: nat) -> Seq<char> {
    "SELECT path FROM file where path in ("@ + join_with(Seq::new(k, |i: int| "?"@), ", "@)
        + ")"@
}

pub struct Db {}

impl Db {
    pub fn filter_query(
        exif_tags: &Vec<(String, String, SqlOperator)>,
        order_tag: &str,
        order_direction: &SqlOrder,
    ) -> (r: SqlQuery)
        ensures
            r.sql@ == filter_query_sql(filter_views(exif_tags@), order_tag@, *order_direction),
            r.params@.map_values(|s: String| s@) == filter_query_params(
                filter_views(exif_tags@),
                order_tag@,
            ),
    {
        let ghost tv = filter_views(exif_tags@);
        let mut conds: Vec<String> = Vec::new();
        let mut params: Vec<String> = Vec::new();
        let mut i: usize = 0;
        proof {
            assert(tv.subrange(0, 0) == Seq::<(Seq<char>, Seq<char>, SqlOperator)>::empty());
        }
        while i < exif_tags.len()
            invariant
                i <= exif_tags@.len(),
                tv == filter_views(exif_tags@),
                conds@.map_values(|s: String| s@) == filter_conditions(
                    used_filters(tv.subrange(0, i as int)),
                ),
                params@.map_values(|s: String| s@) == filter_params(
                    used_filters(tv.subrange(0, i as int)),
                ),
            decreases exif_tags@.len() - i,
        {
            proof {
                assert(tv.subrange(0, i + 1).drop_last() == tv.subrange(0, i as int));
                assert(tv.subrange(0, i + 1).last() == tv[i as int]);
            }
            let (tag, val, op) = (&exif_tags[i].0, &exif_tags[i].1, &exif_tags[i].2);
            if !val.as_str().is_empty() {
                let (frag, bound) = DbUtilities::where_clause_from_str_and_operator(val.as_str(), op);
                let mut c: Vec<char> = Vec::new();
                append_str(&mut c, "json_extract(metadata, ?) ");
                append_str(&mut c, frag.as_str());
                let mut fp: Vec<char> = Vec::new();
                append_str(&mut fp, "$.");
                append_str(&mut fp, tag.as_str());
                let ghost cb = conds@;
                let ghost pb = params@;
                conds.push(string_of(c.as_slice()));
                params.push(string_of(fp.as_slice()));
                params.push(bound);
                proof {
                    let u = used_filters(tv.subrange(0, i + 1));
                    assert(u == used_filters(tv.subrange(0, i as int)).push(tv[i as int]));
                    assert(u.drop_last() == used_filters(tv.subrange(0, i as int)));
                    assert(conds@.drop_last() == cb);
                    assert(conds@.map_values(|s: String| s@) == cb.map_values(|s: String| s@).push(
                        conds@.last()@,
                    ));
                    assert(params@.drop_last().drop_last() == pb);
                    assert(params@.map_values(|s: String| s@) == pb.map_values(|s: String| s@).push(
                        params@[params@.len() - 2]@,
                    ).push(params@.last()@));
                    assert(Seq::<char>::empty() + "$."@ == "$."@);
                }
            }
            i = i + 1;
        }
        proof {
            assert(tv.subrange(0, exif_tags@.len() as int) == tv);
        }
        let mut out: Vec<char> = Vec::new();
        append_str(&mut out, "SELECT distinct(path) FROM file WHERE ");
        let joined = join_strings(&conds, " AND ");
        push_range(&mut out, &joined, 0, joined.len());
        proof {
            assert(joined@.subrange(0, joined@.len() as int) == joined@);
        }
        let ghost head = out@;
        let ghost pv = params@.map_values(|s: String| s@);
        if !order_tag.is_empty() {
            append_str(&mut out, " ORDER BY json_extract(metadata, ?) ");
            let o = order_direction.get_sql();
            append_str(&mut out, o.as_str());
            let mut fp: Vec<char> = Vec::new();
            append_str(&mut fp, "$.");
            append_str(&mut fp, order_tag);
            let ghost pb = params@;
            params.push(string_of(fp.as_slice()));
            proof {
                assert(out@ == head + (" ORDER BY json_extract(metadata, ?) "@ + order_sql(
                    *order_direction,
                )));
                assert(params@.drop_last() == pb);
                assert(params@.map_values(|s: String| s@) == pv.push(params@.last()@));
                assert(Seq::<char>::empty() + "$."@ == "$."@);
                assert(pv.push(field_path(order_tag@)) == pv + seq![field_path(order_tag@)]);
            }
        } else {
            proof {
                assert(out@ == head + Seq::<char>::empty());
                assert(pv == pv + Seq::<Seq<char>>::empty());
            }
        }
        SqlQuery { sql: string_of(out.as_slice()), params }
    }

    /// The queries that find which of `paths` the store holds, each binding
    /// at most `IN_CHUNK` paths, in order.
    pub fn existence_queries(paths: &Vec<String>) -> (r: Vec<SqlQuery>)
        ensures
            r@.len() == rows_for(paths@.len() as int, IN_CHUNK as int),
            forall|k: int|
                #![trigger r@[k]]
                0 <= k < r@.len() ==> {
                    let chunk = views(paths@).subrange(
                        k * IN_CHUNK,
                        if (k + 1) * IN_CHUNK > paths@.len() {
                            paths@.len() as int
                        } else {
                            (k + 1) * IN_CHUNK
                        },
                    );
                    &&& r@[k].sql@ == existence_sql(chunk.len())
                    &&& views(r@[k].params@) == chunk
                },
    {
        let n = paths.len();
        let mut r: Vec<SqlQuery> = Vec::new();
        let mut start: usize = 0;
        let mut k: usize = 0;
        while start < n
            invariant
                n == paths@.len(),
                start == if k * IN_CHUNK > n {
                    n as int
                } else {
                    k * IN_CHUNK
                },
                k > 0 ==> (k - 1) * IN_CHUNK < n,
                r@.len() == k,
                forall|j: int|
                    #![trigger r@[j]]
                    0 <= j < r@.len() ==> {
                        let chunk = views(paths@).subrange(
                            j * IN_CHUNK,
                            if (j + 1) * IN_CHUNK > paths@.len() {
                                paths@.len() as int
                            } else {
                                (j + 1) * IN_CHUNK
                            },
                        );
                        &&& r@[j].sql@ == existence_sql(chunk.len())
                        &&& views(r@[j].params@) == chunk
                    },
            decreases n - start,
        {
            let end = if n - start > IN_CHUNK {
                start + IN_CHUNK
            } else {
                n
            };
            let mut chunk: Vec<String> = Vec::new();
            let mut marks: Vec<String> = Vec::new();
            let mut i: usize = start;
            while i < end
                invariant
                    start <= i <= end <= n == paths@.len(),
                    views(chunk@) == views(paths@).subrange(start as int, i as int),
                    marks@.map_values(|s: String| s@) == Seq::new((i - start) as nat, |x: int| "?"@),
                decreases end - i,
            {
                let ghost before = chunk@;
                let ghost mb = marks@;
                chunk.push(paths[i].clone());
                marks.push(String::from_str("?"));
                proof {
                    assert(chunk@.drop_last() == before);
                    assert(views(chunk@) == views(before).push(paths@[i as int]@));
                    assert(views(paths@).subrange(start as int, i + 1) == views(paths@).subrange(
                        start as int,
                        i as int,
                    ).push(views(paths@)[i as int]));
                    assert(marks@.drop_last() == mb);
                    assert(marks@.map_values(|s: String| s@) == mb.map_values(|s: String| s@).push("?"@));
                    assert(Seq::new((i + 1 - start) as nat, |x: int| "?"@) == Seq::new(
                        (i - start) as nat,
                        |x: int| "?"@,
                    ).push("?"@));
                }
                i = i + 1;
            }
            let mut q: Vec<char> = Vec::new();
            append_str(&mut q, "SELECT path FROM file where path in (");
            let list = join_strings(&marks, ", ");
            push_range(&mut q, &list, 0, list.len());
            append_str(&mut q, ")");
            proof {
                assert(list@.subrange(0, list@.len() as int) == list@);
                assert(Seq::<char>::empty() + "SELECT path FROM file where path in ("@
                    == "SELECT path FROM file where path in ("@);
            }
            r.push(SqlQuery { sql: string_of(q.as_slice()), params: chunk });
            start = end;
            k = k + 1;
        }
        proof {
            vstd::arithmetic::div_mod::lemma_fundamental_div_mod(n as int, IN_CHUNK as int);
        }
        r
    }
}

/// One filter of the filter form: a field, a value and how they compare.
#[derive(Clone, Debug)]
pub struct FilterField {
    pub name: String,
    pub value: String,
    pub operator: SqlOperator,
}

/// The ordering of the filter form's results.
#[derive(Clone, Debug)]
pub struct OrderField {
    pub tag: String,
    pub order: SqlOrder,
}

impl OrderField {
    /// Newest capture date first.
    pub fn new() -> (r: OrderField)
        ensures
            r.tag@ == crate::metadata::DATE_FIELD@,
            r.order == SqlOrder::Desc,
    {
        OrderField { tag: String::from_str(crate::metadata::DATE_FIELD), order: SqlOrder::Desc }
    }
}

/// The filters of a form that take part in a query: those with both a
/// field name and a value, in order.
pub open spec fn active_filters(fields: Seq<FilterField>) -> Seq<(Seq<char>, Seq<char>, SqlOperator)>
    decreases fields.len(),
{
    if fields.len() == 0 {
        seq![]
    } else {
        let r = active_filters(fields.drop_last());
        let f = fields.last();
        if f.name@.len() > 0 && f.value@.len() > 0 {
            r.push((f.name@, f.value@, f.operator))
        } else {
            r
        }
    }
}

impl FilterField {
    pub fn new(name: &str, value: &str) -> (r: FilterField)
        ensures
            r.name@ == name@,
            r.value@ == value@,
            r.operator == SqlOperator::Like,
    {
        FilterField {
            name: String::from_str(name),
            value: String::from_str(value),
            operator: SqlOperator::Like,
        }
    }

    /// The filters that take part in a query.
    pub fn selected(fields: &Vec<FilterField>) -> (r: Vec<(String, String, SqlOperator)>)
        ensures
            filter_views(r@) == active_filters(fields@),
    {
        let mut r: Vec<(String, String, SqlOperator)> = Vec::new();
        let mut i: usize = 0;
        proof {
            assert(fields@.subrange(0, 0) == Seq::<FilterField>::empty());
        }
        while i < fields.len()
            invariant
                i <= fields@.len(),
                filter_views(r@) == active_filters(fields@.subrange(0, i as int)),
            decreases fields@.len() - i,
        {
            proof {
                assert(fields@.subrange(0, i + 1).drop_last() == fields@.subrange(0, i as int));
                assert(fields@.subrange(0, i + 1).last() == fields@[i as int]);
            }
            let f = &fields[i];
            if !f.name.as_str().is_empty() && !f.value.as_str().is_empty() {
                let ghost before = r@;
                r.push((f.name.clone(), f.value.clone(), f.operator));
                proof {
                    assert(r@.drop_last() == before);
                    assert(filter_views(r@) == filter_views(before).push((f.name@, f.value@, f.operator)));
                }
            }
            i = i + 1;
        }
        proof {
            assert(fields@.subrange(0, fields@.len() as int) == fields@);
        }
        r
    }

    /// Sets the value of the first field named after the directory field to
    /// `path`; returns whether there was one.
    pub fn set_metadata_directory_value(fields: &mut Vec<FilterField>, path: &str) -> (r: bool)
        ensures
            final(fields)@.len() == old(fields)@.len(),
            forall|j: int|
                0 <= j < old(fields)@.len() && old(fields)@[j].name@ != crate::metadata::DIRECTORY_FIELD@
                    ==> #[trigger] final(fields)@[j] == old(fields)@[j],
            r == exists|j: int|
                0 <= j < old(fields)@.len() && old(fields)@[j].name@ == crate::metadata::DIRECTORY_FIELD@,
            forall|j: int|
                0 <= j < old(fields)@.len() && old(fields)@[j].name@ == crate::metadata::DIRECTORY_FIELD@
                    && (forall|k: int| 0 <= k < j ==> old(fields)@[k].name@ != crate::metadata::DIRECTORY_FIELD@)
                    ==> #[trigger] final(fields)@[j].value@ == path@ && final(fields)@[j].name@ == old(fields)@[j].name@,
    {
        let dir = String::from_str(crate::metadata::DIRECTORY_FIELD);
        let mut i: usize = 0;
        while i < fields.len()
            invariant
                i <= fields@.len(),
                fields@ == old(fields)@,
                dir@ == crate::metadata::DIRECTORY_FIELD@,
                forall|k: int| 0 <= k < i ==> old(fields)@[k].name@ != crate::metadata::DIRECTORY_FIELD@,
            decreases fields@.len() - i,
        {
            if crate::text::string_eq(&fields[i].name, &dir) {
                let f = FilterField {
                    name: fields[i].name.clone(),
                    value: String::from_str(path),
                    operator: fields[i].operator,
                };
                fields[i] = f;
                return true;
            }
            i = i + 1;
        }
        false
    }
}

} // verus!
