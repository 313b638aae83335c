use mailbox::html::generate_html;
use mailbox::model::{Header, Tasks};
use mailbox::text::{decimal_i64, decimal_usize, escape_html, strip_newlines};

fn header(name: &str, width: u32) -> Header {
    Header { name: name.to_string(), width, check: true }
}

fn row() -> Tasks {
    Tasks {
        email: "a@example.com".to_string(),
        name: "Alice".to_string(),
        seq: 17,
        info: vec!["Sales".to_string(), "Paris".to_string()],
        status: true,
    }
}

fn schema(width: u32) -> Vec<Header> {
    vec![
        header("全选", 50),
        header("邮箱地址", width),
        header("序号", width),
        header("姓名", width),
        header("部门", width),
        header("城市", width),
    ]
}

#[test]
fn fields_in_fixed_order() {
    let html = generate_html(&row(), &schema(100), "see you");
    let positions: Vec<usize> = [">a@example.com<", ">17<", ">Alice<", ">Sales<", ">Paris<", "see you"]
        .iter()
        .map(|needle| html.find(needle).expect(needle))
        .collect();
    assert!(positions.windows(2).all(|w| w[0] < w[1]));
}

#[test]
fn labels_skip_select_all_column() {
    let html = generate_html(&row(), &schema(100), "");
    assert!(!html.contains("全选"));
    let labels = ["邮箱地址", "序号", "姓名", "部门", "城市"];
    let positions: Vec<usize> = labels.iter().map(|l| html.find(l).unwrap()).collect();
    assert!(positions.windows(2).all(|w| w[0] < w[1]));
    assert!(positions[4] < html.find("a@example.com").unwrap());
}

#[test]
fn widths_do_not_change_rendering() {
    assert_eq!(generate_html(&row(), &schema(100), "r"), generate_html(&row(), &schema(250), "r"));
}

#[test]
fn remark_is_placed_verbatim_at_the_end() {
    let html = generate_html(&row(), &schema(100), "<b>thanks</b>");
    assert!(html.ends_with("*附：<b>thanks</b></div>"));
    assert!(html.starts_with("<div><table"));
}

#[test]
fn field_values_are_escaped() {
    let mut t = row();
    t.name = "<script>&\"'".to_string();
    let html = generate_html(&t, &schema(100), "");
    assert!(html.contains(">&lt;script&gt;&amp;&quot;&#39;<"));
    assert!(!html.contains("<script>"));
}

#[test]
fn escape_examples() {
    assert_eq!(escape_html("a<b>&c"), "a&lt;b&gt;&amp;c");
    assert_eq!(escape_html(""), "");
    assert_eq!(escape_html("邮箱 'x'"), "邮箱 &#39;x&#39;");
}

#[test]
fn newline_removal() {
    assert_eq!(strip_newlines("a\nb\n"), "ab");
    assert_eq!(strip_newlines("\n"), "");
    assert_eq!(strip_newlines("姓\n名"), "姓名");
}

#[test]
fn decimal_rendering() {
    assert_eq!(decimal_i64(0), "0");
    assert_eq!(decimal_i64(-45), "-45");
    assert_eq!(decimal_i64(i64::MAX), i64::MAX.to_string());
    assert_eq!(decimal_i64(i64::MIN), i64::MIN.to_string());
    assert_eq!(decimal_usize(1050), "1050");
}

#[test]
fn missing_info_renders_empty_cells() {
    let mut t = row();
    t.info = vec![];
    let html = generate_html(&t, &schema(100), "");
    assert!(!html.contains("Sales"));
    assert_eq!(t.at(0), "");
    assert_eq!(row().at(1), "Paris");
    assert_eq!(row().at(2), "");
}
