use rss_converter::expand_template;

fn groups(texts: &[Option<&str>]) -> Vec<Option<String>> {
    texts.iter().map(|text| text.map(|t| t.to_string())).collect()
}

#[test]
fn placeholders_give_way_to_their_groups() {
    let g = groups(&[Some("abc"), Some("a"), Some("c")]);
    assert_eq!(expand_template("$2-$1 ($0)", &g), "c-a (abc)");
}

#[test]
fn every_occurrence_is_replaced() {
    let g = groups(&[Some("x"), Some("ab")]);
    assert_eq!(expand_template("$1$1 $1", &g), "abab ab");
}

#[test]
fn absent_group_leaves_its_placeholder() {
    let g = groups(&[Some("ab"), Some("a"), None]);
    assert_eq!(expand_template("$1-$2", &g), "a-$2");
}

#[test]
fn missing_group_leaves_its_placeholder() {
    let g = groups(&[Some("ab"), Some("a")]);
    assert_eq!(expand_template("$1-$5", &g), "a-$5");
}

#[test]
fn template_without_placeholders_is_returned() {
    let g = groups(&[Some("ab"), Some("a")]);
    assert_eq!(expand_template("plain text $ and $x", &g), "plain text $ and $x");
}

#[test]
fn no_groups_leave_the_template() {
    let g = groups(&[]);
    assert_eq!(expand_template("$0 $1", &g), "$0 $1");
}

#[test]
fn empty_template_stays_empty() {
    let g = groups(&[Some("a")]);
    assert_eq!(expand_template("", &g), "");
}

#[test]
fn empty_group_removes_its_placeholder() {
    let g = groups(&[Some(""), Some("")]);
    assert_eq!(expand_template("[$1]", &g), "[]");
}

#[test]
fn substituted_text_is_searched_again() {
    let g = groups(&[Some("w"), Some("$2"), Some("x")]);
    assert_eq!(expand_template("$1 $2", &g), "x x");
}

#[test]
fn earlier_placeholder_in_substituted_text_stays() {
    let g = groups(&[Some("w"), Some("a"), Some("$1")]);
    assert_eq!(expand_template("$1 $2", &g), "a $1");
}

#[test]
fn substituted_dollar_joins_a_following_digit() {
    let g = groups(&[Some("w"), Some("$"), Some("x")]);
    assert_eq!(expand_template("$12", &g), "x");
}

#[test]
fn shorter_index_is_replaced_inside_a_longer_one() {
    let g = groups(&[Some("w"), Some("a")]);
    assert_eq!(expand_template("$10", &g), "a0");
}

#[test]
fn two_digit_index_is_replaced_where_the_first_digit_took_no_part() {
    let mut texts: Vec<Option<&str>> = vec![None; 13];
    texts[0] = Some("w");
    texts[12] = Some("z");
    texts[2] = Some("b");
    let g = groups(&texts);
    assert_eq!(expand_template("$12 $2 $1", &g), "z b $1");
}

#[test]
fn two_digit_index_loses_to_its_first_digit() {
    let mut texts: Vec<Option<&str>> = vec![None; 11];
    texts[1] = Some("a");
    texts[10] = Some("z");
    let g = groups(&texts);
    assert_eq!(expand_template("$10", &g), "a0");
}

#[test]
fn text_beyond_ascii_is_kept() {
    let g = groups(&[Some("名侦探柯南"), Some("柯南")]);
    assert_eq!(expand_template("《$1》— $0 ✓", &g), "《柯南》— 名侦探柯南 ✓");
}

#[test]
fn built_in_replacement_on_given_groups() {
    let g = groups(&[
        Some("whole"),
        Some("g1"),
        Some("22"),
        Some("label"),
        Some("g4"),
        Some("g5"),
        None,
        Some("g7"),
    ]);
    assert_eq!(
        expand_template(" [$1] Detective Conan - $2 ($4 $7 $5) ", &g),
        " [g1] Detective Conan - 22 (g4 g7 g5) "
    );
}
