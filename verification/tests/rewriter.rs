use rss_converter::{
    rewrite_events, rewrite_feed, EventKind, ParseScope, TitleConverter, TitleRule, XmlEvent,
};

fn event(kind: EventKind, content: &str) -> XmlEvent {
    XmlEvent { kind, content: content.to_string() }
}

fn rule(name: &str, pattern: &str, replacement: &str, priority: u32) -> TitleRule {
    TitleRule {
        name: name.to_string(),
        pattern: pattern.to_string(),
        replacement: replacement.to_string(),
        priority,
    }
}

#[test]
fn cdata_title_of_an_item_is_rewritten() {
    let converter = TitleConverter::new();
    let input = "<?xml version=\"1.0\" encoding=\"UTF-8\"?><rss version=\"2.0\"><channel><title>Feed</title><item><title><![CDATA[[fansub][名侦探柯南][第1170集 食人教室的玄机（后篇）][WEBRIP][简繁日多语MKV][PGS][1080P]]]></title></item></channel></rss>";
    let expected = "<?xml version=\"1.0\" encoding=\"UTF-8\"?><rss version=\"2.0\"><channel><title>Feed</title><item><title> [fansub] Detective Conan - 1170 (WEBRIP 1080P 简繁日多语MKV) </title></item></channel></rss>";
    assert_eq!(rewrite_feed(input, &converter).unwrap(), expected);
}

#[test]
fn one_of_two_items_is_rewritten() {
    let converter = TitleConverter::new();
    let before = "<rss><channel><item><title>";
    let between = "</title><link>http://x/1</link></item><item><title>";
    let after = "</title><link>http://x/2</link></item></channel></rss>";
    let input = format!(
        "{}{}{}{}{}",
        before, "[a][名侦探柯南][第7集 b][d][e][f]", between, "Other show - 3", after
    );
    let expected = format!(
        "{}{}{}{}{}",
        before, " [a] Detective Conan - 7 (d f e) ", between, "Other show - 3", after
    );
    assert_eq!(rewrite_feed(&input, &converter).unwrap(), expected);
}

#[test]
fn feed_with_plain_titles_comes_back_unchanged() {
    let converter = TitleConverter::new();
    let input = "<?xml version=\"1.0\"?><!DOCTYPE rss><!-- made by hand --><?style sheet?><rss version=\"2.0\" xmlns:atom=\"http://www.w3.org/2005/Atom\"><channel><title>[a][名侦探柯南][第7集 b][d][e][f]</title><atom:link href=\"http://x/feed\" rel=\"self\"/><item><title>Plain title, 2nd part</title><description><![CDATA[<b>bold</b> &amp; more]]></description><guid isPermaLink=\"false\">a &amp; b</guid><empty></empty><br /></item><item><title></title></item></channel></rss>";
    assert_eq!(rewrite_feed(input, &converter).unwrap(), input);
}

#[test]
fn white_space_around_text_is_trimmed() {
    let converter = TitleConverter::new();
    let input = "\n<rss>\n  <channel>\n    <item>\n      <title>  Plain   title \n</title>\n      <link> http://x/1\t</link>\n    </item>\n  </channel>\n</rss>\n";
    let expected =
        "<rss><channel><item><title>Plain   title</title><link>http://x/1</link></item></channel></rss>";
    assert_eq!(rewrite_feed(input, &converter).unwrap(), expected);
}

#[test]
fn white_space_inside_tags_and_comments_is_kept() {
    let converter = TitleConverter::new();
    let input = "<rss  version = \"2.0\" ><!--  a  comment  --><item ><title >x</title ></item ></rss>";
    let expected = "<rss  version = \"2.0\" ><!--  a  comment  --><item ><title >x</title></item></rss>";
    assert_eq!(rewrite_feed(input, &converter).unwrap(), expected);
}

#[test]
fn unmatched_cdata_title_becomes_escaped_text() {
    let converter = TitleConverter::new();
    let input = "<item><title><![CDATA[Tom & Jerry <3>]]></title></item>";
    let expected = "<item><title>Tom &amp; Jerry &lt;3&gt;</title></item>";
    assert_eq!(rewrite_feed(input, &converter).unwrap(), expected);
}

#[test]
fn cdata_outside_a_title_stays_cdata() {
    let converter = TitleConverter::new();
    let input = "<item><description><![CDATA[[a][名侦探柯南][第7集 b][d][e][f]]]></description></item>";
    assert_eq!(rewrite_feed(input, &converter).unwrap(), input);
}

#[test]
fn title_outside_an_item_is_left_alone() {
    let converter = TitleConverter::new();
    let input = "<channel><title><![CDATA[[a][名侦探柯南][第7集 b][d][e][f]]]></title><image><title>[a][名侦探柯南][第7集 b][d][e][f]</title></image></channel>";
    assert_eq!(rewrite_feed(input, &converter).unwrap(), input);
}

#[test]
fn title_after_the_end_of_an_item_is_left_alone() {
    let converter = TitleConverter::new();
    let input = "<c><item><title>a</title></item><title>[a][名侦探柯南][第7集 b][d][e][f]</title></c>";
    assert_eq!(rewrite_feed(input, &converter).unwrap(), input);
}

#[test]
fn entities_in_a_title_are_resolved_before_the_rules_see_it() {
    let mut converter = TitleConverter::new();
    converter.add_rule(rule("angle", "^a<b$", "$0 found", 0));
    let input = "<item><title>a&lt;b</title></item>";
    let expected = "<item><title>a&lt;b found</title></item>";
    assert_eq!(rewrite_feed(input, &converter).unwrap(), expected);
}

#[test]
fn numeric_entity_in_a_title_comes_back_as_its_character() {
    let converter = TitleConverter::new();
    let input = "<item><title>&#65;&#x42;c</title></item>";
    let expected = "<item><title>ABc</title></item>";
    assert_eq!(rewrite_feed(input, &converter).unwrap(), expected);
}

#[test]
fn quotes_in_a_title_come_back_as_entities() {
    let converter = TitleConverter::new();
    let input = "<item><title>Tom's \"title\"</title></item>";
    let expected = "<item><title>Tom&apos;s &quot;title&quot;</title></item>";
    assert_eq!(rewrite_feed(input, &converter).unwrap(), expected);
}

#[test]
fn unknown_entity_in_a_title_drops_that_text() {
    let converter = TitleConverter::new();
    let input = "<item><title>a &nbsp; b</title></item>";
    let expected = "<item><title></title></item>";
    assert_eq!(rewrite_feed(input, &converter).unwrap(), expected);
}

#[test]
fn text_and_cdata_of_one_title_are_joined() {
    let mut converter = TitleConverter::new();
    converter.add_rule(rule("joined", "^(ab)(cd)$", "$2$1", 0));
    let input = "<item><title>ab<![CDATA[cd]]></title></item>";
    let expected = "<item><title>cdab</title></item>";
    assert_eq!(rewrite_feed(input, &converter).unwrap(), expected);
}

#[test]
fn markup_inside_a_title_is_written_before_its_text() {
    let converter = TitleConverter::new();
    let input = "<item><title>a<b>c</b>d</title></item>";
    let expected = "<item><title><b></b>acd</title></item>";
    assert_eq!(rewrite_feed(input, &converter).unwrap(), expected);
}

#[test]
fn item_with_attributes_is_an_item() {
    let converter = TitleConverter::new();
    let input = "<item id=\"1\"><title lang=\"zh\">[a][名侦探柯南][第7集 b][d][e][f]</title></item>";
    let expected = "<item id=\"1\"><title lang=\"zh\"> [a] Detective Conan - 7 (d f e) </title></item>";
    assert_eq!(rewrite_feed(input, &converter).unwrap(), expected);
}

#[test]
fn longer_names_are_no_items_or_titles() {
    let converter = TitleConverter::new();
    let input = "<items><title>[a][名侦探柯南][第7集 b][d][e][f]</title></items><item><titles>[a][名侦探柯南][第7集 b][d][e][f]</titles><media:title>[a][名侦探柯南][第7集 b][d][e][f]</media:title></item>";
    assert_eq!(rewrite_feed(input, &converter).unwrap(), input);
}

#[test]
fn empty_document_gives_empty_output() {
    let converter = TitleConverter::new();
    assert_eq!(rewrite_feed("", &converter).unwrap(), "");
    assert_eq!(rewrite_feed("  \n ", &converter).unwrap(), "");
}

#[test]
fn unclosed_elements_at_the_end_are_accepted() {
    let converter = TitleConverter::new();
    assert_eq!(rewrite_feed("<rss><channel>", &converter).unwrap(), "<rss><channel>");
}

#[test]
fn unfinished_title_at_the_end_is_lost() {
    let converter = TitleConverter::new();
    assert_eq!(rewrite_feed("<item><title>abc", &converter).unwrap(), "<item><title>");
}

#[test]
fn unterminated_tag_is_an_error_with_the_output_so_far() {
    let converter = TitleConverter::new();
    let input = "<rss><item><title>[a][名侦探柯南][第7集 b][d][e][f]</title></item><item";
    let error = rewrite_feed(input, &converter).unwrap_err();
    assert_eq!(
        error.partial,
        "<rss><item><title> [a] Detective Conan - 7 (d f e) </title></item>"
    );
    assert_eq!(error.message, "Unexpected EOF during reading Element");
}

#[test]
fn mismatched_end_tag_is_an_error_with_the_output_so_far() {
    let converter = TitleConverter::new();
    let error = rewrite_feed("<a><b>text</a><c/>", &converter).unwrap_err();
    assert_eq!(error.partial, "<a><b>text");
    assert_eq!(error.message, "Expecting </b> found </a>");
}

#[test]
fn end_tag_without_a_start_is_an_error() {
    let converter = TitleConverter::new();
    let error = rewrite_feed("</item>", &converter).unwrap_err();
    assert_eq!(error.partial, "");
    assert_eq!(error.message, "Expecting </> found </item>");
}

#[test]
fn events_are_written_with_their_delimiters() {
    let converter = TitleConverter::new();
    let events = vec![
        event(EventKind::Decl, "xml version=\"1.0\""),
        event(EventKind::DocType, "rss"),
        event(EventKind::Comment, " c "),
        event(EventKind::PI, "target data"),
        event(EventKind::Start, "a x=\"1\""),
        event(EventKind::Empty, "b y=\"2\""),
        event(EventKind::Text, "t &amp; u"),
        event(EventKind::CData, "<raw>"),
        event(EventKind::End, "a"),
    ];
    assert_eq!(
        rewrite_events(&events, &converter),
        "<?xml version=\"1.0\"?><!DOCTYPE rss><!-- c --><?target data?><a x=\"1\"><b y=\"2\"/>t &amp; u<![CDATA[<raw>]]></a>"
    );
}

#[test]
fn no_events_give_empty_output() {
    let converter = TitleConverter::new();
    assert_eq!(rewrite_events(&Vec::new(), &converter), "");
}

#[test]
fn title_events_are_rewritten() {
    let converter = TitleConverter::new();
    let events = vec![
        event(EventKind::Start, "item\tid=\"7\""),
        event(EventKind::Start, "title\nlang=\"zh\""),
        event(EventKind::Text, "[a&amp;b][名侦探柯南]"),
        event(EventKind::CData, "[第7集 b][d][e][<f>]"),
        event(EventKind::End, "title"),
        event(EventKind::End, "item"),
    ];
    assert_eq!(
        rewrite_events(&events, &converter),
        "<item\tid=\"7\"><title\nlang=\"zh\"> [a&amp;b] Detective Conan - 7 (d &lt;f&gt; e) </title></item>"
    );
}

#[test]
fn end_of_an_item_inside_a_title_drops_the_title() {
    let converter = TitleConverter::new();
    let events = vec![
        event(EventKind::Start, "item"),
        event(EventKind::Start, "title"),
        event(EventKind::Text, "held back"),
        event(EventKind::End, "item"),
        event(EventKind::Text, "written"),
        event(EventKind::End, "title"),
    ];
    assert_eq!(rewrite_events(&events, &converter), "<item><title></item>written</title>");
}

#[test]
fn second_title_start_clears_the_gathered_text() {
    let converter = TitleConverter::new();
    let events = vec![
        event(EventKind::Start, "item"),
        event(EventKind::Start, "title"),
        event(EventKind::Text, "first"),
        event(EventKind::Start, "title"),
        event(EventKind::Text, "second"),
        event(EventKind::End, "title"),
        event(EventKind::End, "title"),
        event(EventKind::End, "item"),
    ];
    assert_eq!(
        rewrite_events(&events, &converter),
        "<item><title><title>second</title></title></item>"
    );
}

#[test]
fn nested_item_does_not_leave_the_outer_one_open() {
    let converter = TitleConverter::new();
    let events = vec![
        event(EventKind::Start, "item"),
        event(EventKind::Start, "item"),
        event(EventKind::End, "item"),
        event(EventKind::Start, "title"),
        event(EventKind::CData, "a&b"),
        event(EventKind::End, "title"),
        event(EventKind::End, "item"),
    ];
    assert_eq!(
        rewrite_events(&events, &converter),
        "<item><item></item><title><![CDATA[a&b]]></title></item>"
    );
}

#[test]
fn empty_element_named_item_opens_nothing() {
    let converter = TitleConverter::new();
    let events = vec![
        event(EventKind::Empty, "item"),
        event(EventKind::Start, "title"),
        event(EventKind::CData, "a&b"),
        event(EventKind::End, "title"),
    ];
    assert_eq!(rewrite_events(&events, &converter), "<item/><title><![CDATA[a&b]]></title>");
}

#[test]
fn end_tag_is_named_by_its_whole_content() {
    let converter = TitleConverter::new();
    let events = vec![
        event(EventKind::Start, "item"),
        event(EventKind::Start, "title"),
        event(EventKind::Text, "a"),
        event(EventKind::End, "title "),
        event(EventKind::End, "title"),
    ];
    assert_eq!(rewrite_events(&events, &converter), "<item><title></title >a</title>");
}

#[test]
fn scope_follows_items_and_titles() {
    let converter = TitleConverter::new();
    let mut out = String::new();
    let mut scope = ParseScope::new();
    assert!(!scope.inside_item && !scope.inside_title);
    assert_eq!(scope.title_buffer, "");

    scope.step(&event(EventKind::Start, "title"), &converter, &mut out);
    assert!(!scope.inside_item && !scope.inside_title);
    scope.step(&event(EventKind::End, "title"), &converter, &mut out);
    assert_eq!(out, "<title></title>");

    scope.step(&event(EventKind::Start, "item"), &converter, &mut out);
    assert!(scope.inside_item && !scope.inside_title);
    scope.step(&event(EventKind::Text, "between"), &converter, &mut out);
    assert_eq!(scope.title_buffer, "");
    assert_eq!(out, "<title></title><item>between");

    scope.step(&event(EventKind::Start, "title"), &converter, &mut out);
    assert!(scope.inside_item && scope.inside_title);
    scope.step(&event(EventKind::Text, "a &amp; "), &converter, &mut out);
    assert_eq!(scope.title_buffer, "a & ");
    scope.step(&event(EventKind::Comment, "kept"), &converter, &mut out);
    scope.step(&event(EventKind::CData, "b &amp; c"), &converter, &mut out);
    assert_eq!(scope.title_buffer, "a & b &amp; c");
    assert_eq!(out, "<title></title><item>between<title><!--kept-->");

    scope.step(&event(EventKind::End, "title"), &converter, &mut out);
    assert!(scope.inside_item && !scope.inside_title);
    assert_eq!(
        out,
        "<title></title><item>between<title><!--kept-->a &amp; b &amp;amp; c</title>"
    );

    scope.step(&event(EventKind::End, "item"), &converter, &mut out);
    assert!(!scope.inside_item && !scope.inside_title);
}

#[test]
fn output_is_appended_to_what_is_there() {
    let converter = TitleConverter::new();
    let mut out = String::from("kept:");
    let mut scope = ParseScope::new();
    scope.step(&event(EventKind::Empty, "x"), &converter, &mut out);
    assert_eq!(out, "kept:<x/>");
}
