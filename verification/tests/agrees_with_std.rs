use rust_personal_site::blog::{parse_tags_line, split_blog_post_markdown};
use rust_personal_site::config::blog_posts_per_page_from_env;
use rust_personal_site::render::{escape_html, render_template};

const SAMPLES: [&str; 10] = [
    "",
    "a",
    "a\n",
    "a\r\nb",
    "a\rb\r",
    "\n\nx\n\n",
    "one\ntwo\r\n\r\nthree",
    "x\r",
    "\r\n",
    "last line without end",
];

#[test]
fn body_lines_join_like_std_lines() {
    for s in SAMPLES {
        let text = format!("plain\n{}", s);
        let expected = text.lines().collect::<Vec<_>>().join("\n");
        assert_eq!(split_blog_post_markdown(&text).body, expected, "for {:?}", text);
    }
}

#[test]
fn tag_trimming_like_std_trim() {
    let spaces = ['\t', '\n', '\u{0B}', '\u{0C}', '\r', ' ', '\u{85}', '\u{A0}', '\u{1680}', '\u{2000}', '\u{2005}', '\u{200A}', '\u{2028}', '\u{2029}', '\u{202F}', '\u{205F}', '\u{3000}', '\u{200B}', '\u{FEFF}'];
    for c in spaces {
        let line = format!("tags:{}a{},{}", c, c, c);
        let expected: Vec<String> = line["tags:".len()..]
            .split(',')
            .map(str::trim)
            .filter(|v| !v.is_empty())
            .map(ToOwned::to_owned)
            .collect();
        assert_eq!(parse_tags_line(&line), expected, "for {:?}", c);
    }
}

#[test]
fn escaping_like_chained_replace() {
    for s in ["<a href='x'>&amp;</a>", "\"quoted\"", "plain", "&&<<>>"] {
        let expected = s
            .replace('&', "&amp;")
            .replace('<', "&lt;")
            .replace('>', "&gt;")
            .replace('"', "&quot;")
            .replace('\'', "&#39;");
        assert_eq!(escape_html(s), expected);
    }
}

#[test]
fn templates_like_chained_replace() {
    let template = "{{a}}{{{b}}}{{a}b}}{{c}}";
    let placeholders = [("a", "{{b}}"), ("b", "B"), ("c", "{{c}}")];
    let mut expected = template.to_string();
    for (name, value) in placeholders {
        expected = expected.replace(&format!("{{{{{}}}}}", name), value);
    }
    assert_eq!(render_template(template, &placeholders), expected);
}

#[test]
fn numbers_parse_like_std() {
    for s in ["5", " 12 ", "+3", "-3", "0", "00042", "1_000", "18446744073709551615", "18446744073709551616", "", "+"] {
        let expected = s.trim().parse::<usize>().ok().filter(|v| *v > 0).unwrap_or(5);
        assert_eq!(blog_posts_per_page_from_env(Some(s)), expected, "for {:?}", s);
    }
}
