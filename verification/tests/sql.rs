use sticker_search::search::{MetaKey, ParsedKeyword, ParsedMeta, ParsedTag, Search};
use sticker_search::sql::{
    build_count_sql_stmt, build_main_stem, build_search_sql_stmt, build_sub_query_tages,
};

fn tag(namespace: &str, value: &str, not: bool) -> ParsedTag {
    ParsedTag { namespace: namespace.to_string(), value: value.to_string(), not }
}

fn kw(value: &str, not: bool) -> ParsedKeyword {
    ParsedKeyword { value: value.to_string(), not }
}

fn meta(key: MetaKey, value: &str) -> ParsedMeta {
    ParsedMeta { key, not: false, value: value.to_string() }
}

fn search(tags: Vec<ParsedTag>, keywords: Vec<ParsedKeyword>, meta: Vec<ParsedMeta>) -> Search {
    Search { tags, keywords, meta }
}

#[test]
fn test_full_serach() {
    let s = Search {
        tags: vec![tag("female", "lolicon", false), tag("female", "guro", true)],
        keywords: vec![kw("刷", false), kw("朱重八", true)],
        meta: vec![meta(MetaKey::Package, "Inbox")],
    };
    println!("{}", build_search_sql_stmt(s, 0, 30).unwrap());
}

#[test]
fn test_stem() {
    assert_eq!(
        build_main_stem("sticker", &vec![kw("刷", false), kw("朱重八", true)], &Vec::new(), false)
            .unwrap(),
        String::from(
            "SELECT inp.* FROM sticker as inp WHERE inp.name LIKE '%刷%' AND inp.name NOT LIKE '%朱重八%'"
        )
    );
    assert_eq!(
        build_main_stem("sticker", &vec![], &vec![meta(MetaKey::Package, "穗穗")], false).unwrap(),
        String::from(
            "SELECT inp.* FROM sticker as inp JOIN package on inp.package = package.id WHERE package.name = '穗穗'"
        )
    );
}

#[test]
fn test_tag() {
    assert_eq!(build_sub_query_tages(&vec![]), None);
    assert_eq!(
        build_sub_query_tages(&vec![tag("female", "lolicon", false)]),
        Some("SELECT sticker.* FROM sticker JOIN sticker_tag ON sticker.id = sticker_tag.sticker WHERE sticker_tag.tag IN (SELECT id as tag FROM tag WHERE (tag.namespace = 'female' AND tag.value = 'lolicon')) GROUP BY sticker.id HAVING COUNT(DISTINCT sticker_tag.tag) = 1".to_string())
    );
    assert_eq!(
        build_sub_query_tages(&vec![tag("misc", "nsfw", true)]),
        Some("SELECT sticker.* FROM sticker JOIN sticker_tag ON sticker.id = sticker_tag.sticker WHERE sticker.id NOT IN (SELECT sticker.id FROM sticker JOIN sticker_tag ON sticker.id = sticker_tag.sticker JOIN tag ON sticker_tag.tag = tag.id WHERE (tag.namespace = 'misc' AND tag.value = 'nsfw')) GROUP BY sticker.id".to_string())
    );
    assert_eq!(
        build_sub_query_tages(&vec![tag("female", "lolicon", false), tag("misc", "nsfw", true)]),
        Some("SELECT sticker.* FROM sticker JOIN sticker_tag ON sticker.id = sticker_tag.sticker WHERE sticker_tag.tag IN (SELECT id as tag FROM tag WHERE (tag.namespace = 'female' AND tag.value = 'lolicon')) GROUP BY sticker.id HAVING COUNT(DISTINCT sticker_tag.tag) = 1 AND sticker.id NOT IN (SELECT sticker.id FROM sticker JOIN sticker_tag ON sticker.id = sticker_tag.sticker JOIN tag ON sticker_tag.tag = tag.id WHERE (tag.namespace = 'misc' AND tag.value = 'nsfw'))".to_string())
    );
}

#[test]
fn no_predicates_selects_all() {
    let s = search(vec![], vec![], vec![]);
    assert_eq!(
        build_search_sql_stmt(s, 0, 10).unwrap(),
        "SELECT inp.* FROM sticker as inp LIMIT 10 OFFSET 0;"
    );
}

#[test]
fn keyword_only_full_statement() {
    let s = search(vec![], vec![kw("刷", false), kw("朱重八", true)], vec![]);
    assert_eq!(
        build_search_sql_stmt(s, 0, 10).unwrap(),
        "SELECT inp.* FROM sticker as inp WHERE inp.name LIKE '%刷%' AND inp.name NOT LIKE '%朱重八%' LIMIT 10 OFFSET 0;"
    );
}

#[test]
fn package_meta_joins_and_filters() {
    let s = search(vec![], vec![], vec![meta(MetaKey::Package, "穗穗")]);
    assert_eq!(
        build_search_sql_stmt(s, 0, 10).unwrap(),
        "SELECT inp.* FROM sticker as inp JOIN package on inp.package = package.id WHERE package.name = '穗穗' LIMIT 10 OFFSET 0;"
    );
}

#[test]
fn two_required_tags_count_two() {
    assert_eq!(
        build_sub_query_tages(&vec![tag("female", "lolicon", false), tag("misc", "cute", false)]),
        Some("SELECT sticker.* FROM sticker JOIN sticker_tag ON sticker.id = sticker_tag.sticker WHERE sticker_tag.tag IN (SELECT id as tag FROM tag WHERE (tag.namespace = 'female' AND tag.value = 'lolicon') OR (tag.namespace = 'misc' AND tag.value = 'cute')) GROUP BY sticker.id HAVING COUNT(DISTINCT sticker_tag.tag) = 2".to_string())
    );
}

#[test]
fn tags_wrap_statement_in_cte() {
    let s = search(vec![tag("female", "lolicon", false)], vec![], vec![]);
    assert_eq!(
        build_search_sql_stmt(s, 0, 30).unwrap(),
        "WITH taged_sticker AS (SELECT sticker.* FROM sticker JOIN sticker_tag ON sticker.id = sticker_tag.sticker WHERE sticker_tag.tag IN (SELECT id as tag FROM tag WHERE (tag.namespace = 'female' AND tag.value = 'lolicon')) GROUP BY sticker.id HAVING COUNT(DISTINCT sticker_tag.tag) = 1) SELECT inp.* FROM taged_sticker as inp LIMIT 30 OFFSET 0;"
    );
}

#[test]
fn invalid_sort_names_value_and_allowed_set() {
    let s = search(vec![], vec![], vec![meta(MetaKey::Sort, "popularity")]);
    assert_eq!(
        build_search_sql_stmt(s, 0, 10),
        Err("popularity is not sortable. it must be one of 'name', 'create' or 'modify'"
            .to_string())
    );
}

#[test]
fn invalid_order_names_value_and_allowed_set() {
    let s = search(vec![], vec![], vec![meta(MetaKey::Order, "reverse")]);
    assert_eq!(
        build_search_sql_stmt(s, 0, 10),
        Err("reverse is not a valid order. it must be one of 'asc' or 'desc'".to_string())
    );
}

#[test]
fn invalid_sort_fails_with_tags_too() {
    let s = search(vec![tag("female", "lolicon", false)], vec![], vec![meta(MetaKey::Sort, "id")]);
    assert_eq!(
        build_search_sql_stmt(s, 0, 10),
        Err("id is not sortable. it must be one of 'name', 'create' or 'modify'".to_string())
    );
}

#[test]
fn pagination_limit_and_offset() {
    let s = search(vec![], vec![], vec![]);
    assert_eq!(
        build_search_sql_stmt(s, 2, 30).unwrap(),
        "SELECT inp.* FROM sticker as inp LIMIT 30 OFFSET 60;"
    );
}

#[test]
fn pagination_multi_digit_offset() {
    let s = search(vec![], vec![], vec![]);
    assert_eq!(
        build_search_sql_stmt(s, 123, 1000).unwrap(),
        "SELECT inp.* FROM sticker as inp LIMIT 1000 OFFSET 123000;"
    );
}

#[test]
fn same_query_compiles_to_identical_text() {
    let make = || {
        search(
            vec![tag("female", "lolicon", false), tag("misc", "nsfw", true)],
            vec![kw("刷", false)],
            vec![meta(MetaKey::Package, "Inbox"), meta(MetaKey::Sort, "name")],
        )
    };
    let first = build_search_sql_stmt(make(), 1, 20).unwrap();
    let second = build_search_sql_stmt(make(), 1, 20).unwrap();
    assert_eq!(first, second);
}

#[test]
fn duplicate_sort_keys_first_wins() {
    let s = search(
        vec![],
        vec![],
        vec![meta(MetaKey::Sort, "name"), meta(MetaKey::Sort, "create")],
    );
    assert_eq!(
        build_search_sql_stmt(s, 0, 10).unwrap(),
        "SELECT inp.* FROM sticker as inp ORDER BY inp.name ASC LIMIT 10 OFFSET 0;"
    );
}

#[test]
fn duplicate_invalid_sort_is_dropped() {
    let s = search(
        vec![],
        vec![],
        vec![meta(MetaKey::Sort, "modify"), meta(MetaKey::Sort, "popularity")],
    );
    assert_eq!(
        build_search_sql_stmt(s, 0, 10).unwrap(),
        "SELECT inp.* FROM sticker as inp ORDER BY inp.modify_date ASC LIMIT 10 OFFSET 0;"
    );
}

#[test]
fn date_bounds_filter_modify_date() {
    let s = search(
        vec![],
        vec![],
        vec![meta(MetaKey::DateStart, "100"), meta(MetaKey::DateEnd, "50")],
    );
    assert_eq!(
        build_search_sql_stmt(s, 0, 10).unwrap(),
        "SELECT inp.* FROM sticker as inp WHERE inp.modify_date <= 100 AND inp.modify_date >= 50 LIMIT 10 OFFSET 0;"
    );
}

#[test]
fn type_meta_filters_type_column() {
    let s = search(vec![], vec![], vec![meta(MetaKey::Ty, "pic")]);
    assert_eq!(
        build_search_sql_stmt(s, 0, 10).unwrap(),
        "SELECT inp.* FROM sticker as inp WHERE inp.type = 'pic' LIMIT 10 OFFSET 0;"
    );
}

#[test]
fn sort_and_descending_order() {
    let s = search(
        vec![],
        vec![],
        vec![meta(MetaKey::Sort, "modify"), meta(MetaKey::Order, "desc")],
    );
    assert_eq!(
        build_search_sql_stmt(s, 0, 10).unwrap(),
        "SELECT inp.* FROM sticker as inp ORDER BY inp.modify_date DESC LIMIT 10 OFFSET 0;"
    );
}

#[test]
fn explicit_ascending_order() {
    let s = search(
        vec![],
        vec![],
        vec![meta(MetaKey::Order, "asc"), meta(MetaKey::Sort, "create")],
    );
    assert_eq!(
        build_search_sql_stmt(s, 0, 10).unwrap(),
        "SELECT inp.* FROM sticker as inp ORDER BY inp.create_date ASC LIMIT 10 OFFSET 0;"
    );
}

#[test]
fn count_statement_has_no_pagination() {
    let s = search(vec![], vec![kw("刷", false)], vec![]);
    assert_eq!(
        build_count_sql_stmt(s).unwrap(),
        "SELECT COUNT(inp.id) FROM sticker as inp WHERE inp.name LIKE '%刷%'"
    );
}

#[test]
fn count_statement_with_tags() {
    let s = search(vec![tag("misc", "nsfw", true)], vec![], vec![]);
    assert_eq!(
        build_count_sql_stmt(s).unwrap(),
        "WITH taged_sticker AS (SELECT sticker.* FROM sticker JOIN sticker_tag ON sticker.id = sticker_tag.sticker WHERE sticker.id NOT IN (SELECT sticker.id FROM sticker JOIN sticker_tag ON sticker.id = sticker_tag.sticker JOIN tag ON sticker_tag.tag = tag.id WHERE (tag.namespace = 'misc' AND tag.value = 'nsfw')) GROUP BY sticker.id) SELECT COUNT(inp.id) FROM taged_sticker as inp"
    );
}

#[test]
fn count_statement_propagates_errors() {
    let s = search(vec![], vec![], vec![meta(MetaKey::Order, "up")]);
    assert_eq!(
        build_count_sql_stmt(s),
        Err("up is not a valid order. it must be one of 'asc' or 'desc'".to_string())
    );
}

#[test]
fn duplicate_required_tags_raise_threshold() {
    // Required predicates are not deduplicated: a repeated tag identity is
    // counted twice in the distinct-count threshold, so the upstream parser
    // must hand over deduplicated tag predicates.
    assert_eq!(
        build_sub_query_tages(&vec![
            tag("female", "lolicon", false),
            tag("female", "lolicon", false)
        ]),
        Some("SELECT sticker.* FROM sticker JOIN sticker_tag ON sticker.id = sticker_tag.sticker WHERE sticker_tag.tag IN (SELECT id as tag FROM tag WHERE (tag.namespace = 'female' AND tag.value = 'lolicon') OR (tag.namespace = 'female' AND tag.value = 'lolicon')) GROUP BY sticker.id HAVING COUNT(DISTINCT sticker_tag.tag) = 2".to_string())
    );
}
