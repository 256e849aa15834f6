//! The query compiler: turns a [`Search`](crate::search::Search) plus
//! pagination into a single executable SQL statement, or a row-count
//! statement. Every builder's output is pinned down, character for character,
//! by a spec-level rendering of the same query.

use vstd::prelude::*;

use crate::search::{MetaKey, ParsedKeyword, ParsedMeta, ParsedTag, Search};
use crate::text::{dec_str, join_sep, join_strs, str_eq, u64_to_dec};

verus! {

/// A `Result` of strings, reduced to the text it carries.
pub open spec fn text_of(r: Result<String, String>) -> Result<Seq<char>, Seq<char>> {
    match r {
        Ok(s) => Ok(s@),
        Err(e) => Err(e@),
    }
}

// ---------------------------------------------------------------------------
// Tag subquery
// ---------------------------------------------------------------------------

/// The condition matching one tag identity in the tag dictionary.
pub open spec fn tag_cond(t: ParsedTag) -> Seq<char> {
    "(tag.namespace = '"@ + t.namespace@ + "' AND tag.value = '"@ + t.value@ + "')"@
}

/// The conditions of the required (non-negated) tags among the first `n`.
pub open spec fn req_conds_upto(tags: Seq<ParsedTag>, n: int) -> Seq<Seq<char>>
    decreases n,
{
    if n <= 0 {
        Seq::empty()
    } else if !tags[n - 1].not {
        req_conds_upto(tags, n - 1).push(tag_cond(tags[n - 1]))
    } else {
        req_conds_upto(tags, n - 1)
    }
}

/// The conditions of the excluded (negated) tags among the first `n`.
pub open spec fn exc_conds_upto(tags: Seq<ParsedTag>, n: int) -> Seq<Seq<char>>
    decreases n,
{
    if n <= 0 {
        Seq::empty()
    } else if tags[n - 1].not {
        exc_conds_upto(tags, n - 1).push(tag_cond(tags[n - 1]))
    } else {
        exc_conds_upto(tags, n - 1)
    }
}

/// The conditions of all required tags, in query order.
pub open spec fn req_conds(tags: Seq<ParsedTag>) -> Seq<Seq<char>> {
    req_conds_upto(tags, tags.len() as int)
}

/// The conditions of all excluded tags, in query order.
pub open spec fn exc_conds(tags: Seq<ParsedTag>) -> Seq<Seq<char>> {
    exc_conds_upto(tags, tags.len() as int)
}

/// The clause keeping exactly the items that carry every required tag: the
/// associated tags are intersected with the required identities, grouped by
/// item, and the count of distinct matched tags must reach the number of
/// required predicates.
pub open spec fn has_all_text(tags: Seq<ParsedTag>) -> Seq<char> {
    " sticker_tag.tag IN (SELECT id as tag FROM tag WHERE "@ + join_sep(req_conds(tags), " OR "@)
        + ") GROUP BY sticker.id HAVING COUNT(DISTINCT sticker_tag.tag) = "@
        + dec_str(req_conds(tags).len())
}

/// The clause subtracting every item associated with any excluded tag.
pub open spec fn none_of_text(tags: Seq<ParsedTag>) -> Seq<char> {
    " sticker.id NOT IN (SELECT sticker.id FROM sticker JOIN sticker_tag ON sticker.id = sticker_tag.sticker JOIN tag ON sticker_tag.tag = tag.id WHERE "@
        + join_sep(exc_conds(tags), " OR "@) + ")"@
}

/// The full tag subquery for a non-empty tag list: the required-tags clause
/// and the excluded-items clause joined with AND when both are present; with
/// no required tags, the subtraction alone, grouped by item so that an item
/// with several tag associations yields one row.
pub open spec fn sub_query_text(tags: Seq<ParsedTag>) -> Seq<char> {
    let base =
        "SELECT sticker.* FROM sticker JOIN sticker_tag ON sticker.id = sticker_tag.sticker WHERE"@;
    if req_conds(tags).len() > 0 {
        base + has_all_text(tags) + (if exc_conds(tags).len() > 0 {
            " AND"@ + none_of_text(tags)
        } else {
            Seq::empty()
        })
    } else {
        base + none_of_text(tags) + " GROUP BY sticker.id"@
    }
}

/// Builds the tag subquery selecting the item rows that satisfy every tag
/// predicate: `None` when there are no tag predicates, otherwise exactly
/// [`sub_query_text`].
pub fn build_sub_query_tages(tags: &Vec<ParsedTag>) -> (r: Option<String>)
    ensures
        r is Some <==> tags@.len() > 0,
        tags@.len() > 0 ==> (r matches Some(s) && s@ == sub_query_text(tags@)),
{
    if tags.len() == 0 {
        return None;
    }
    let mut req: Vec<String> = Vec::new();
    let mut exc: Vec<String> = Vec::new();
    let mut i: usize = 0;
    while i < tags.len()
        invariant
            i <= tags@.len(),
            req@.map_values(|s: String| s@) == req_conds_upto(tags@, i as int),
            exc@.map_values(|s: String| s@) == exc_conds_upto(tags@, i as int),
        decreases tags@.len() - i,
    {
        let t = &tags[i];
        let mut c = String::from_str("(tag.namespace = '");
        c.append(t.namespace.as_str());
        c.append("' AND tag.value = '");
        c.append(t.value.as_str());
        c.append("')");
        proof {
            assert(c@ =~= tag_cond(tags@[i as int]));
        }
        if !t.not {
            req.push(c);
        } else {
            exc.push(c);
        }
        proof {
            assert(req@.map_values(|s: String| s@) =~= req_conds_upto(tags@, i as int + 1));
            assert(exc@.map_values(|s: String| s@) =~= exc_conds_upto(tags@, i as int + 1));
        }
        i += 1;
    }
    let mut s = String::from_str(
        "SELECT sticker.* FROM sticker JOIN sticker_tag ON sticker.id = sticker_tag.sticker WHERE",
    );
    if req.len() > 0 {
        s.append(" sticker_tag.tag IN (SELECT id as tag FROM tag WHERE ");
        s.append(join_strs(&req, " OR ").as_str());
        s.append(") GROUP BY sticker.id HAVING COUNT(DISTINCT sticker_tag.tag) = ");
        s.append(u64_to_dec(req.len() as u64).as_str());
        if exc.len() > 0 {
            s.append(" AND");
            s.append(
                " sticker.id NOT IN (SELECT sticker.id FROM sticker JOIN sticker_tag ON sticker.id = sticker_tag.sticker JOIN tag ON sticker_tag.tag = tag.id WHERE ",
            );
            s.append(join_strs(&exc, " OR ").as_str());
            s.append(")");
        }
    } else {
        s.append(
            " sticker.id NOT IN (SELECT sticker.id FROM sticker JOIN sticker_tag ON sticker.id = sticker_tag.sticker JOIN tag ON sticker_tag.tag = tag.id WHERE ",
        );
        s.append(join_strs(&exc, " OR ").as_str());
        s.append(")");
        s.append(" GROUP BY sticker.id");
    }
    proof {
        assert(s@ =~= sub_query_text(tags@));
    }
    Some(s)
}

// ---------------------------------------------------------------------------
// Main statement
// ---------------------------------------------------------------------------

/// Whether no earlier metadata predicate has the same key: only such
/// predicates are honored, later duplicates for a key are silently dropped.
pub open spec fn is_first_key(meta: Seq<ParsedMeta>, i: int) -> bool {
    forall|j: int| 0 <= j < i ==> meta[j].key != meta[i].key
}

/// The condition a keyword predicate compiles to: substring containment on
/// the item name, or its absence for a negated predicate.
pub open spec fn kw_cond(k: ParsedKeyword) -> Seq<char> {
    "inp.name "@ + (if k.not {
        "NOT LIKE"@
    } else {
        "LIKE"@
    }) + " '%"@ + k.value@ + "%'"@
}

/// The conditions of the first `n` keyword predicates, in query order.
pub open spec fn kw_conds_upto(kws: Seq<ParsedKeyword>, n: int) -> Seq<Seq<char>>
    decreases n,
{
    if n <= 0 {
        Seq::empty()
    } else {
        kw_conds_upto(kws, n - 1).push(kw_cond(kws[n - 1]))
    }
}

/// The filter conditions one metadata predicate contributes. The date-start
/// key bounds the modification date from above and date-end from below; this
/// mirror-image pairing is the established behaviour of the query language
/// and is kept as it stands. `Sort` and `Order` configure ordering and
/// contribute no condition.
pub open spec fn meta_conds(m: ParsedMeta) -> Seq<Seq<char>> {
    match m.key {
        MetaKey::DateStart => seq!["inp.modify_date <= "@ + m.value@],
        MetaKey::DateEnd => seq!["inp.modify_date >= "@ + m.value@],
        MetaKey::Package => seq!["package.name = '"@ + m.value@ + "'"@],
        MetaKey::Ty => seq!["inp.type = '"@ + m.value@ + "'"@],
        MetaKey::Sort => Seq::empty(),
        MetaKey::Order => Seq::empty(),
    }
}

/// The filter conditions of the honored metadata predicates among the first
/// `n`, in query order.
pub open spec fn meta_conds_upto(meta: Seq<ParsedMeta>, n: int) -> Seq<Seq<char>>
    decreases n,
{
    if n <= 0 {
        Seq::empty()
    } else if is_first_key(meta, n - 1) {
        meta_conds_upto(meta, n - 1) + meta_conds(meta[n - 1])
    } else {
        meta_conds_upto(meta, n - 1)
    }
}

/// The recognized `Sort` values.
pub open spec fn valid_sort(v: Seq<char>) -> bool {
    v == "name"@ || v == "create"@ || v == "modify"@
}

/// The recognized `Order` values.
pub open spec fn valid_order(v: Seq<char>) -> bool {
    v == "asc"@ || v == "desc"@
}

/// The ordering column a valid `Sort` value selects.
pub open spec fn sort_col(v: Seq<char>) -> Seq<char> {
    if v == "name"@ {
        "inp.name"@
    } else if v == "create"@ {
        "inp.create_date"@
    } else {
        "inp.modify_date"@
    }
}

/// Whether a metadata predicate passes validation: `Sort` and `Order` must
/// carry a recognized value, every other key accepts any value.
pub open spec fn meta_entry_ok(m: ParsedMeta) -> bool {
    &&& m.key == MetaKey::Sort ==> valid_sort(m.value@)
    &&& m.key == MetaKey::Order ==> valid_order(m.value@)
}

/// The error text for a rejected `Sort` value, naming the value and the
/// allowed set.
pub open spec fn sort_err_text(v: Seq<char>) -> Seq<char> {
    v + " is not sortable. it must be one of 'name', 'create' or 'modify'"@
}

/// The error text for a rejected `Order` value, naming the value and the
/// allowed set.
pub open spec fn order_err_text(v: Seq<char>) -> Seq<char> {
    v + " is not a valid order. it must be one of 'asc' or 'desc'"@
}

/// The error text of one rejected metadata predicate.
pub open spec fn meta_err(m: ParsedMeta) -> Seq<char> {
    if m.key == MetaKey::Sort {
        sort_err_text(m.value@)
    } else {
        order_err_text(m.value@)
    }
}

/// The first validation error among the honored metadata predicates of the
/// first `n`, in query order; `None` when they all pass.
pub open spec fn err_upto(meta: Seq<ParsedMeta>, n: int) -> Option<Seq<char>>
    decreases n,
{
    if n <= 0 {
        None
    } else {
        match err_upto(meta, n - 1) {
            Some(e) => Some(e),
            None => if is_first_key(meta, n - 1) && !meta_entry_ok(meta[n - 1]) {
                Some(meta_err(meta[n - 1]))
            } else {
                None
            },
        }
    }
}

/// The honored `Sort` predicate among the first `n`, if any: at most one
/// `Sort` predicate is honored, so this is the first one.
pub open spec fn sort_upto(meta: Seq<ParsedMeta>, n: int) -> Option<ParsedMeta>
    decreases n,
{
    if n <= 0 {
        None
    } else if is_first_key(meta, n - 1) && meta[n - 1].key == MetaKey::Sort {
        Some(meta[n - 1])
    } else {
        sort_upto(meta, n - 1)
    }
}

/// Whether the honored `Order` predicate among the first `n` asks for a
/// descending order; ascending is the default.
pub open spec fn desc_upto(meta: Seq<ParsedMeta>, n: int) -> bool
    decreases n,
{
    if n <= 0 {
        false
    } else if is_first_key(meta, n - 1) && meta[n - 1].key == MetaKey::Order {
        meta[n - 1].value@ == "desc"@
    } else {
        desc_upto(meta, n - 1)
    }
}

/// Whether any of the first `n` metadata predicates keys the package join.
pub open spec fn has_package(meta: Seq<ParsedMeta>, n: int) -> bool {
    exists|j: int| 0 <= j < n && meta[j].key == MetaKey::Package
}

/// The projection: full rows, or a row count.
pub open spec fn select_text(count: bool) -> Seq<char> {
    if count {
        "COUNT(inp.id)"@
    } else {
        "inp.*"@
    }
}

/// The source list: the aliased source, followed by the package join when
/// some metadata predicate filters on the package.
pub open spec fn from_text(src: Seq<char>, meta: Seq<ParsedMeta>) -> Seq<char> {
    src + " as inp"@ + (if has_package(meta, meta.len() as int) {
        " JOIN package on inp.package = package.id"@
    } else {
        Seq::empty()
    })
}

/// All filter conditions: keyword conditions first, then the honored
/// metadata conditions, each group in query order.
pub open spec fn all_conds(kws: Seq<ParsedKeyword>, meta: Seq<ParsedMeta>) -> Seq<Seq<char>> {
    kw_conds_upto(kws, kws.len() as int) + meta_conds_upto(meta, meta.len() as int)
}

/// The WHERE clause: nothing without conditions, otherwise the conditions
/// joined with AND.
pub open spec fn where_text(conds: Seq<Seq<char>>) -> Seq<char> {
    if conds.len() == 0 {
        Seq::empty()
    } else {
        " WHERE "@ + join_sep(conds, " AND "@)
    }
}

/// The ORDER BY clause: nothing without an honored `Sort`, otherwise its
/// column and the direction the honored `Order` selects.
pub open spec fn order_text(meta: Seq<ParsedMeta>) -> Seq<char> {
    match sort_upto(meta, meta.len() as int) {
        None => Seq::empty(),
        Some(m) => " ORDER BY "@ + sort_col(m.value@) + (if desc_upto(meta, meta.len() as int) {
            " DESC"@
        } else {
            " ASC"@
        }),
    }
}

/// The full statement body over the source `src`, without pagination.
pub open spec fn stem_text(
    src: Seq<char>,
    kws: Seq<ParsedKeyword>,
    meta: Seq<ParsedMeta>,
    count: bool,
) -> Seq<char> {
    "SELECT "@ + select_text(count) + " FROM "@ + from_text(src, meta) + where_text(
        all_conds(kws, meta),
    ) + order_text(meta)
}

/// What compiling the statement body yields: the first validation error among
/// the honored metadata predicates, or the exact body text.
pub open spec fn stem_result(
    src: Seq<char>,
    kws: Seq<ParsedKeyword>,
    meta: Seq<ParsedMeta>,
    count: bool,
) -> Result<Seq<char>, Seq<char>> {
    match err_upto(meta, meta.len() as int) {
        Some(e) => Err(e),
        None => Ok(stem_text(src, kws, meta, count)),
    }
}

/// Once a prefix holds a validation error, every longer prefix reports that
/// same first error.
proof fn lemma_err_upto_extends(meta: Seq<ParsedMeta>, n: int, m: int)
    requires
        0 <= n <= m <= meta.len(),
        err_upto(meta, n) is Some,
    ensures
        err_upto(meta, m) == err_upto(meta, n),
    decreases m,
{
    if m > n {
        lemma_err_upto_extends(meta, n, m - 1);
    }
}

/// Validation succeeds on a prefix exactly when every honored predicate in
/// it passes.
proof fn lemma_err_upto_none_iff(meta: Seq<ParsedMeta>, n: int)
    requires
        0 <= n <= meta.len(),
    ensures
        err_upto(meta, n) is None <==> (forall|i: int|
            0 <= i < n && #[trigger] is_first_key(meta, i) ==> meta_entry_ok(meta[i])),
    decreases n,
{
    if n > 0 {
        lemma_err_upto_none_iff(meta, n - 1);
    }
}

/// Pushing the condition of an honored filter predicate extends the
/// accumulated condition list exactly as `meta_conds_upto` does.
proof fn lemma_push_cond(
    pre: Seq<String>,
    post: Seq<String>,
    c: String,
    kw_all: Seq<Seq<char>>,
    meta: Seq<ParsedMeta>,
    i: int,
)
    requires
        0 <= i < meta.len(),
        is_first_key(meta, i),
        post == pre.push(c),
        meta_conds(meta[i]).len() == 1,
        c@ == meta_conds(meta[i])[0],
        pre.map_values(|s: String| s@) == kw_all + meta_conds_upto(meta, i),
    ensures
        post.map_values(|s: String| s@) == kw_all + meta_conds_upto(meta, i + 1),
{
    let cv = c@;
    assert(post.map_values(|s: String| s@) =~= pre.map_values(|s: String| s@).push(cv));
    assert(meta_conds(meta[i]) =~= seq![cv]);
    assert(pre.map_values(|s: String| s@).push(cv) =~= (kw_all + meta_conds_upto(meta, i))
        + seq![cv]);
    assert((kw_all + meta_conds_upto(meta, i)) + seq![cv] =~= kw_all + (meta_conds_upto(meta, i)
        + seq![cv]));
    assert(post.map_values(|s: String| s@) =~= kw_all + meta_conds_upto(meta, i + 1));
}

/// Whether an earlier metadata predicate uses the same key as `meta[i]`.
fn key_seen_before(meta: &Vec<ParsedMeta>, i: usize) -> (b: bool)
    requires
        i < meta@.len(),
    ensures
        b == !is_first_key(meta@, i as int),
{
    let mut j: usize = 0;
    while j < i
        invariant
            j <= i < meta@.len(),
            forall|j2: int| 0 <= j2 < j ==> meta@[j2].key != meta@[i as int].key,
        decreases i - j,
    {
        if meta[j].key == meta[i].key {
            return true;
        }
        j += 1;
    }
    false
}

/// Builds one statement body over the aliased source `src_table`, applying
/// the keyword and honored metadata predicates, the ordering they select,
/// and the projection `count_number` asks for. Returns exactly
/// [`stem_result`]: the body text, or the first validation error.
pub fn build_main_stem(
    src_table: &str,
    keywords: &Vec<ParsedKeyword>,
    meta: &Vec<ParsedMeta>,
    count_number: bool,
) -> (r: Result<String, String>)
    ensures
        text_of(r) == stem_result(src_table@, keywords@, meta@, count_number),
        r is Ok <==> (forall|i: int|
            0 <= i < meta@.len() && #[trigger] is_first_key(meta@, i) ==> meta_entry_ok(
                meta@[i],
            )),
{
    let mut cond: Vec<String> = Vec::new();
    let mut order_by: Option<&'static str> = None;
    let mut order_rev = false;
    let mut has_pkg = false;

    let mut i: usize = 0;
    while i < keywords.len()
        invariant
            i <= keywords@.len(),
            cond@.map_values(|s: String| s@) == kw_conds_upto(keywords@, i as int),
        decreases keywords@.len() - i,
    {
        let kwd = &keywords[i];
        let mut c = String::from_str("inp.name ");
        c.append(if kwd.not {
            "NOT LIKE"
        } else {
            "LIKE"
        });
        c.append(" '%");
        c.append(kwd.value.as_str());
        c.append("%'");
        proof {
            assert(c@ =~= kw_cond(keywords@[i as int]));
        }
        cond.push(c);
        proof {
            assert(cond@.map_values(|s: String| s@) =~= kw_conds_upto(keywords@, i as int + 1));
        }
        i += 1;
    }

    let ghost kw_all = kw_conds_upto(keywords@, keywords@.len() as int);
    let mut i: usize = 0;
    while i < meta.len()
        invariant
            i <= meta@.len(),
            kw_all == kw_conds_upto(keywords@, keywords@.len() as int),
            err_upto(meta@, i as int) is None,
            cond@.map_values(|s: String| s@) == kw_all + meta_conds_upto(meta@, i as int),
            has_pkg == has_package(meta@, i as int),
            match sort_upto(meta@, i as int) {
                None => order_by is None,
                Some(m) => order_by matches Some(c) && c@ == sort_col(m.value@),
            },
            order_rev == desc_upto(meta@, i as int),
        decreases meta@.len() - i,
    {
        proof {
            reveal_strlit("name");
            reveal_strlit("create");
            reveal_strlit("modify");
            reveal_strlit("asc");
            reveal_strlit("desc");
        }
        let dup = key_seen_before(meta, i);
        if !dup {
            let m = &meta[i];
            match m.key {
                MetaKey::DateStart => {
                    let mut c = String::from_str("inp.modify_date <= ");
                    c.append(m.value.as_str());
                    proof {
                        assert(c@ =~= meta_conds(meta@[i as int])[0]);
                    }
                    let ghost pre = cond@;
                    let ghost pre_c = c;
                    cond.push(c);
                    proof {
                        lemma_push_cond(pre, cond@, pre_c, kw_all, meta@, i as int);
                    }
                }
                MetaKey::DateEnd => {
                    let mut c = String::from_str("inp.modify_date >= ");
                    c.append(m.value.as_str());
                    proof {
                        assert(c@ =~= meta_conds(meta@[i as int])[0]);
                    }
                    let ghost pre = cond@;
                    let ghost pre_c = c;
                    cond.push(c);
                    proof {
                        lemma_push_cond(pre, cond@, pre_c, kw_all, meta@, i as int);
                    }
                }
                MetaKey::Package => {
                    has_pkg = true;
                    let mut c = String::from_str("package.name = '");
                    c.append(m.value.as_str());
                    c.append("'");
                    proof {
                        assert(c@ =~= meta_conds(meta@[i as int])[0]);
                    }
                    let ghost pre = cond@;
                    let ghost pre_c = c;
                    cond.push(c);
                    proof {
                        lemma_push_cond(pre, cond@, pre_c, kw_all, meta@, i as int);
                    }
                }
                MetaKey::Ty => {
                    let mut c = String::from_str("inp.type = '");
                    c.append(m.value.as_str());
                    c.append("'");
                    proof {
                        assert(c@ =~= meta_conds(meta@[i as int])[0]);
                    }
                    let ghost pre = cond@;
                    let ghost pre_c = c;
                    cond.push(c);
                    proof {
                        lemma_push_cond(pre, cond@, pre_c, kw_all, meta@, i as int);
                    }
                }
                MetaKey::Sort => {
                    if str_eq(&m.value, "name") {
                        order_by = Some("inp.name");
                    } else if str_eq(&m.value, "create") {
                        order_by = Some("inp.create_date");
                    } else if str_eq(&m.value, "modify") {
                        order_by = Some("inp.modify_date");
                    } else {
                        let mut e = m.value.clone();
                        e.append(" is not sortable. it must be one of 'name', 'create' or 'modify'");
                        proof {
                            assert(err_upto(meta@, i as int + 1) == Some(meta_err(meta@[i as int])));
                            lemma_err_upto_extends(meta@, i as int + 1, meta@.len() as int);
                            lemma_err_upto_none_iff(meta@, meta@.len() as int);
                            assert(e@ =~= meta_err(meta@[i as int]));
                        }
                        return Err(e);
                    }
                }
                MetaKey::Order => {
                    if str_eq(&m.value, "asc") {
                        order_rev = false;
                    } else if str_eq(&m.value, "desc") {
                        order_rev = true;
                    } else {
                        let mut e = m.value.clone();
                        e.append(" is not a valid order. it must be one of 'asc' or 'desc'");
                        proof {
                            assert(err_upto(meta@, i as int + 1) == Some(meta_err(meta@[i as int])));
                            lemma_err_upto_extends(meta@, i as int + 1, meta@.len() as int);
                            lemma_err_upto_none_iff(meta@, meta@.len() as int);
                            assert(e@ =~= meta_err(meta@[i as int]));
                        }
                        return Err(e);
                    }
                }
            }
            proof {
                assert(cond@.map_values(|s: String| s@) =~= kw_all + meta_conds_upto(
                    meta@,
                    i as int + 1,
                ));
            }
        } else {
            proof {
                assert(cond@.map_values(|s: String| s@) =~= kw_all + meta_conds_upto(
                    meta@,
                    i as int + 1,
                ));
            }
        }
        i += 1;
    }

    proof {
        lemma_err_upto_none_iff(meta@, meta@.len() as int);
    }
    let mut stmt = String::from_str("SELECT ");
    stmt.append(if count_number {
        "COUNT(inp.id)"
    } else {
        "inp.*"
    });
    stmt.append(" FROM ");
    stmt.append(src_table);
    stmt.append(" as inp");
    if has_pkg {
        stmt.append(" JOIN package on inp.package = package.id");
    }
    if cond.len() > 0 {
        stmt.append(" WHERE ");
        let joined = join_strs(&cond, " AND ");
        stmt.append(joined.as_str());
    }
    if let Some(col) = order_by {
        stmt.append(" ORDER BY ");
        stmt.append(col);
        stmt.append(if order_rev {
            " DESC"
        } else {
            " ASC"
        });
    }
    proof {
        assert(stmt@ =~= stem_text(src_table@, keywords@, meta@, count_number));
    }
    Ok(stmt)
}

// ---------------------------------------------------------------------------
// Top-level assembly
// ---------------------------------------------------------------------------

/// The pagination tail of a results statement: a page of `page_size` rows at
/// offset `page * page_size`, and the terminator.
pub open spec fn results_tail(page: int, page_size: int) -> Seq<char>
    recommends
        0 <= page,
        0 < page_size,
{
    " LIMIT "@ + dec_str(page_size as nat) + " OFFSET "@ + dec_str((page * page_size) as nat)
        + ";"@
}

/// The statement body shared by results and count statements: the main
/// statement over the bare catalog when there are no tag predicates,
/// otherwise over the tag subquery named as a common table expression.
pub open spec fn body_result(search: Search, count: bool) -> Result<Seq<char>, Seq<char>> {
    if search.tags@.len() == 0 {
        stem_result("sticker"@, search.keywords@, search.meta@, count)
    } else {
        match stem_result("taged_sticker"@, search.keywords@, search.meta@, count) {
            Ok(m) => Ok("WITH taged_sticker AS ("@ + sub_query_text(search.tags@) + ") "@ + m),
            Err(e) => Err(e),
        }
    }
}

/// What compiling a results statement yields: the paginated, terminated
/// statement, or the first validation error.
pub open spec fn search_stmt_result(search: Search, page: int, page_size: int) -> Result<
    Seq<char>,
    Seq<char>,
> {
    match body_result(search, false) {
        Ok(s) => Ok(s + results_tail(page, page_size)),
        Err(e) => Err(e),
    }
}

/// What compiling a count statement yields: the row-count statement with no
/// pagination, or the first validation error.
pub open spec fn count_stmt_result(search: Search) -> Result<Seq<char>, Seq<char>> {
    body_result(search, true)
}

/// Compiles `search` into one executable statement returning the page of
/// matching item rows `page` and `page_size` select. Returns exactly
/// [`search_stmt_result`]; compilation succeeds if and only if every honored
/// `Sort` and `Order` value is recognized.
pub fn build_search_sql_stmt(search: Search, page: i32, page_size: i32) -> (r: Result<
    String,
    String,
>)
    requires
        0 <= page,
        0 < page_size,
        page * page_size <= i32::MAX,
    ensures
        text_of(r) == search_stmt_result(search, page as int, page_size as int),
        r is Ok <==> (forall|i: int|
            0 <= i < search.meta@.len() && #[trigger] is_first_key(search.meta@, i)
                ==> meta_entry_ok(search.meta@[i])),
{
    let Search { tags, keywords, meta } = search;
    let body: Result<String, String> = if tags.len() == 0 {
        build_main_stem("sticker", &keywords, &meta, false)
    } else {
        match build_sub_query_tages(&tags) {
            Some(sq) => {
                match build_main_stem("taged_sticker", &keywords, &meta, false) {
                    Ok(m) => {
                        let mut s = String::from_str("WITH taged_sticker AS (");
                        s.append(sq.as_str());
                        s.append(") ");
                        s.append(m.as_str());
                        proof {
                            assert(s@ =~= "WITH taged_sticker AS ("@ + sub_query_text(
                                search.tags@,
                            ) + ") "@ + m@);
                        }
                        Ok(s)
                    },
                    Err(e) => Err(e),
                }
            },
            None => {
                proof {
                    assert(false);
                }
                Err(String::new())
            },
        }
    };
    proof {
        assert(text_of(body) == body_result(search, false));
    }
    match body {
        Ok(mut s) => {
            let ghost body0 = s@;
            s.append(" LIMIT ");
            s.append(u64_to_dec(page_size as u64).as_str());
            s.append(" OFFSET ");
            let offset = page * page_size;
            s.append(u64_to_dec(offset as u64).as_str());
            s.append(";");
            proof {
                assert(page_size as u64 == page_size as int);
                assert(offset as u64 == page as int * page_size as int);
                assert(s@ =~= body0 + results_tail(page as int, page_size as int));
            }
            Ok(s)
        },
        Err(e) => Err(e),
    }
}

/// Compiles `search` into one executable statement returning the total count
/// of matching items, with no pagination. Returns exactly
/// [`count_stmt_result`]; compilation succeeds if and only if every honored
/// `Sort` and `Order` value is recognized.
pub fn build_count_sql_stmt(search: Search) -> (r: Result<String, String>)
    ensures
        text_of(r) == count_stmt_result(search),
        r is Ok <==> (forall|i: int|
            0 <= i < search.meta@.len() && #[trigger] is_first_key(search.meta@, i)
                ==> meta_entry_ok(search.meta@[i])),
{
    let Search { tags, keywords, meta } = search;
    if tags.len() == 0 {
        build_main_stem("sticker", &keywords, &meta, true)
    } else {
        match build_sub_query_tages(&tags) {
            Some(sq) => {
                match build_main_stem("taged_sticker", &keywords, &meta, true) {
                    Ok(m) => {
                        let mut s = String::from_str("WITH taged_sticker AS (");
                        s.append(sq.as_str());
                        s.append(") ");
                        s.append(m.as_str());
                        proof {
                            assert(s@ =~= "WITH taged_sticker AS ("@ + sub_query_text(
                                search.tags@,
                            ) + ") "@ + m@);
                        }
                        Ok(s)
                    },
                    Err(e) => Err(e),
                }
            },
            None => {
                proof {
                    assert(false);
                }
                Err(String::new())
            },
        }
    }
}

// ---------------------------------------------------------------------------
// Laws
// ---------------------------------------------------------------------------

/// The honored-prefix readings of a metadata list agree with those of the
/// same list extended by one more predicate, on any shared prefix.
proof fn lemma_upto_prefix_agree(meta: Seq<ParsedMeta>, m: ParsedMeta, n: int)
    requires
        0 <= n <= meta.len(),
    ensures
        meta_conds_upto(meta.push(m), n) == meta_conds_upto(meta, n),
        err_upto(meta.push(m), n) == err_upto(meta, n),
        sort_upto(meta.push(m), n) == sort_upto(meta, n),
        desc_upto(meta.push(m), n) == desc_upto(meta, n),
    decreases n,
{
    if n > 0 {
        lemma_upto_prefix_agree(meta, m, n - 1);
        let s2 = meta.push(m);
        assert(s2[n - 1] == meta[n - 1]);
        assert(forall|j: int| 0 <= j < n - 1 ==> s2[j] == meta[j]);
        assert(is_first_key(s2, n - 1) == is_first_key(meta, n - 1));
    }
}

/// Duplicate metadata keys are dropped, first occurrence wins: appending a
/// metadata predicate whose key already occurs in the list leaves the
/// compiled statement body unchanged.
pub proof fn lemma_stem_duplicate_key_dropped(
    src: Seq<char>,
    kws: Seq<ParsedKeyword>,
    meta: Seq<ParsedMeta>,
    m: ParsedMeta,
    count: bool,
)
    requires
        exists|j: int| 0 <= j < meta.len() && meta[j].key == m.key,
    ensures
        stem_result(src, kws, meta.push(m), count) == stem_result(src, kws, meta, count),
{
    let s2 = meta.push(m);
    let n = meta.len() as int;
    lemma_upto_prefix_agree(meta, m, n);
    let j = choose|j: int| 0 <= j < meta.len() && meta[j].key == m.key;
    assert(s2[j].key == s2[n].key);
    assert(!is_first_key(s2, n));
    assert(meta_conds_upto(s2, n + 1) == meta_conds_upto(meta, n));
    assert(err_upto(s2, n + 1) == err_upto(meta, n));
    assert(sort_upto(s2, n + 1) == sort_upto(meta, n));
    assert(desc_upto(s2, n + 1) == desc_upto(meta, n));
    assert(has_package(s2, n + 1) == has_package(meta, n)) by {
        if has_package(s2, n + 1) {
            let k = choose|k: int| 0 <= k < n + 1 && s2[k].key == MetaKey::Package;
            if k < n {
                assert(meta[k].key == MetaKey::Package);
            } else {
                assert(meta[j].key == MetaKey::Package);
            }
        }
        if has_package(meta, n) {
            let k = choose|k: int| 0 <= k < n && meta[k].key == MetaKey::Package;
            assert(s2[k].key == MetaKey::Package);
        }
    }
    assert(all_conds(kws, s2) == all_conds(kws, meta));
    assert(from_text(src, s2) == from_text(src, meta));
    assert(order_text(s2) == order_text(meta));
}

/// Duplicate metadata keys are dropped at the interface too: appending a
/// metadata predicate whose key already occurs changes neither the results
/// statement nor the count statement, for any pagination.
pub proof fn lemma_duplicate_meta_key_dropped(
    a: Search,
    b: Search,
    m: ParsedMeta,
    page: int,
    page_size: int,
)
    requires
        b.tags@ == a.tags@,
        b.keywords@ == a.keywords@,
        b.meta@ == a.meta@.push(m),
        exists|j: int| 0 <= j < a.meta@.len() && a.meta@[j].key == m.key,
    ensures
        search_stmt_result(b, page, page_size) == search_stmt_result(a, page, page_size),
        count_stmt_result(b) == count_stmt_result(a),
{
    lemma_stem_duplicate_key_dropped("sticker"@, a.keywords@, a.meta@, m, false);
    lemma_stem_duplicate_key_dropped("sticker"@, a.keywords@, a.meta@, m, true);
    lemma_stem_duplicate_key_dropped("taged_sticker"@, a.keywords@, a.meta@, m, false);
    lemma_stem_duplicate_key_dropped("taged_sticker"@, a.keywords@, a.meta@, m, true);
}

} // verus!

