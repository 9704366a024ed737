use regex::Regex;
use weixin_agent::client::outbound_text;
use weixin_agent::messaging::markdown_filter::StreamingMarkdownFilter;

fn is_cjk(c: char) -> bool {
    matches!(c,
        '\u{4E00}'..='\u{9FFF}' |
        '\u{3400}'..='\u{4DBF}' |
        '\u{3000}'..='\u{303F}' |
        '\u{3040}'..='\u{309F}' |
        '\u{30A0}'..='\u{30FF}' |
        '\u{AC00}'..='\u{D7AF}'
    )
}

/// Italic rule on a run of text: `*x*` with CJK content becomes `x`.
fn reference_italic(run: &str, italic: &Regex) -> String {
    italic
        .replace_all(run, |c: &regex::Captures| {
            if c[1].chars().any(is_cjk) { c[1].to_string() } else { c[0].to_string() }
        })
        .to_string()
}

/// Inline markup of a stretch outside code spans: the bold rule over the
/// whole stretch, then the italic rule on each run between kept bold spans.
fn reference_piece(piece: &str, bold: &Regex, italic: &Regex) -> String {
    let mut out = String::new();
    let mut run = String::new();
    let mut last = 0;
    for caps in bold.captures_iter(piece) {
        let whole = caps.get(0).unwrap();
        run.push_str(&piece[last..whole.start()]);
        let inner = &caps[1];
        if inner.chars().any(is_cjk) {
            run.push_str(inner);
        } else {
            out.push_str(&reference_italic(&run, italic));
            run.clear();
            out.push_str(whole.as_str());
        }
        last = whole.end();
    }
    run.push_str(&piece[last..]);
    out.push_str(&reference_italic(&run, italic));
    out
}

/// Inline code spans (a backtick with a later backtick) copied, the
/// stretches between them marked up.
fn reference_line(line: &str) -> String {
    let bold = Regex::new(r"\*\*(.+?)\*\*").unwrap();
    let italic = Regex::new(r"\*(.+?)\*").unwrap();
    let mut out = String::new();
    let mut rest = line;
    loop {
        let span = rest.find('`').and_then(|t| rest[t + 1..].find('`').map(|c| (t, t + 1 + c)));
        match span {
            Some((t, c)) => {
                out.push_str(&reference_piece(&rest[..t], &bold, &italic));
                out.push_str(&rest[t..c + 1]);
                rest = &rest[c + 1..];
            }
            None => {
                out.push_str(&reference_piece(rest, &bold, &italic));
                break;
            }
        }
    }
    out
}

/// Reference with the same line rules, on the whole text.
fn reference(text: &str) -> String {
    let mut output = String::new();
    let mut in_fence = false;
    for line in text.lines() {
        if line.trim_start().starts_with("```") {
            in_fence = !in_fence;
            output.push_str(line);
            output.push('\n');
            continue;
        }
        if in_fence {
            output.push_str(line);
            output.push('\n');
            continue;
        }
        if line.trim_start().starts_with("![") {
            continue;
        }
        let trimmed = line.trim_start();
        if trimmed.starts_with("#####") {
            output.push_str(trimmed.trim_start_matches('#').trim_start());
            output.push('\n');
            continue;
        }
        output.push_str(&reference_line(line));
        output.push('\n');
    }
    output
}

#[test]
fn markdown_keeps_code_fences_verbatim() {
    let text = "```rust\n**粗体** ![x](y)\n##### h\n```\nafter";
    assert_eq!(StreamingMarkdownFilter::filter(text), "```rust\n**粗体** ![x](y)\n##### h\n```\nafter\n");
}

#[test]
fn markdown_strips_cjk_emphasis_only() {
    assert_eq!(StreamingMarkdownFilter::filter("这是**重点**内容"), "这是重点内容\n");
    assert_eq!(StreamingMarkdownFilter::filter("*斜体* and *italic*"), "斜体 and *italic*\n");
    assert_eq!(StreamingMarkdownFilter::filter("--- | *中* |"), "--- | 中 |\n");
    assert_eq!(StreamingMarkdownFilter::filter("**bold** text"), "**bold** text\n");
}

#[test]
fn markdown_drops_image_lines_and_minor_heading_marks() {
    assert_eq!(StreamingMarkdownFilter::filter("a\n  ![alt](u.png)\nb"), "a\nb\n");
    assert_eq!(StreamingMarkdownFilter::filter("##### Title\n###### 小标题"), "Title\n小标题\n");
    assert_eq!(StreamingMarkdownFilter::filter("#### kept"), "#### kept\n");
}

#[test]
fn markdown_line_endings() {
    assert_eq!(StreamingMarkdownFilter::filter(""), "");
    assert_eq!(StreamingMarkdownFilter::filter("a\r\nb\n"), "a\nb\n");
    assert_eq!(StreamingMarkdownFilter::filter("a\r"), "a\r\n");
    assert_eq!(StreamingMarkdownFilter::filter("\n\n"), "\n\n");
}

#[test]
fn markdown_keeps_inline_code() {
    assert_eq!(StreamingMarkdownFilter::filter("`a*中*b`"), "`a*中*b`\n");
    assert_eq!(StreamingMarkdownFilter::filter("*中* `*中*` *文*"), "中 `*中*` 文\n");
    assert_eq!(StreamingMarkdownFilter::filter("**中 `x** y`"), "**中 `x** y`\n");
    assert_eq!(StreamingMarkdownFilter::filter("a ` *中*"), "a ` 中\n");
}

#[test]
fn markdown_kept_bold_does_not_pair_with_italic() {
    assert_eq!(StreamingMarkdownFilter::filter("**bold** *中文*"), "**bold** 中文\n");
    assert_eq!(StreamingMarkdownFilter::filter("**粗 *斜* 体**"), "粗 斜 体\n");
    assert_eq!(StreamingMarkdownFilter::filter("**a *b* c**"), "**a *b* c**\n");
    assert_eq!(StreamingMarkdownFilter::filter("*中* **b** *文*"), "中 **b** 文\n");
}

#[test]
fn markdown_bold_rule_runs_before_italic_rule() {
    assert_eq!(StreamingMarkdownFilter::filter("***中***"), "中\n");
    assert_eq!(StreamingMarkdownFilter::filter("5*3 **注意**"), "5*3 注意\n");
    assert_eq!(StreamingMarkdownFilter::filter("**中** *x*"), "中 *x*\n");
    assert_eq!(StreamingMarkdownFilter::filter("a*b **中** c*d"), "ab 中 cd\n");
}

#[test]
fn markdown_chunks_split_inside_a_line() {
    let mut f = StreamingMarkdownFilter::new();
    f.feed("**中");
    f.feed("文**");
    assert_eq!(f.finish(), "中文\n");
    let mut g = StreamingMarkdownFilter::new();
    g.feed("a\r");
    g.feed("\nb");
    assert_eq!(g.finish(), "a\nb\n");
}

#[test]
fn markdown_random_chunking_matches_one_shot() {
    let text = "第一行 **加粗** and **bold** *中*\n```\ncode *x*\n```\n![i](j)\n##### 标题\n`*中*` *中文* end\r\nlast *行*";
    let chars: Vec<char> = text.chars().collect();
    let whole = StreamingMarkdownFilter::filter(text);
    let mut state: u64 = 7;
    for _ in 0..500 {
        let mut f = StreamingMarkdownFilter::new();
        let mut i = 0;
        while i < chars.len() {
            state = state.wrapping_mul(6364136223846793005).wrapping_add(1442695040888963407);
            let len = ((state >> 33) % 7) as usize;
            let end = (i + len).min(chars.len());
            let chunk: String = chars[i..end].iter().collect();
            f.feed(&chunk);
            i = end;
        }
        assert_eq!(f.finish(), whole);
    }
}

#[test]
fn markdown_streaming_matches_one_shot() {
    let text = "第一行 **加粗**\n```\ncode *x*\n```\n![i](j)\n##### 标题\n*中文* end\n";
    let mut f = StreamingMarkdownFilter::new();
    f.feed("第一行 **加粗**\n```\n");
    f.feed("code *x*\n```\n![i](j)\n");
    f.feed("##### 标题\n*中文* end\n");
    assert_eq!(f.finish(), StreamingMarkdownFilter::filter(text));
}

#[test]
fn markdown_matches_regex_reference_on_samples() {
    let samples = [
        "***中***", "**a*中*b**", "*a**中**", "** 中 **", "****", "*中", "中*", "***",
        "*中*中*", "**中**中**", "x *a b* y *中文* z", "  ```\n*中*\n   ```  \n*中*",
        "\t![", "!", "#####", "#####   ", "######中", "#####\u{3000}全角", "\u{3000}*中*",
        "*\u{3000}*", "**\r**", "a\r\r\nb", "**中\n文**", "*é中ß*", "한국어 *한글* **조선**",
    ];
    for s in samples {
        assert_eq!(StreamingMarkdownFilter::filter(s), reference(s), "input {s:?}");
    }
}

#[test]
fn markdown_matches_regex_reference_on_generated_text() {
    let alphabet = ['*', '*', '*', 'a', ' ', '中', '文', '\n', '`', '#', '!', '[', '\r', '\u{3000}', 'あ', '`'];
    let mut state: u64 = 0x2545_F491_4F6C_DD1D;
    for _ in 0..3000 {
        state ^= state << 13;
        state ^= state >> 7;
        state ^= state << 17;
        let len = (state % 24) as usize;
        let mut s = String::new();
        let mut x = state;
        for _ in 0..len {
            x = x.wrapping_mul(6364136223846793005).wrapping_add(1442695040888963407);
            s.push(alphabet[((x >> 33) % alphabet.len() as u64) as usize]);
        }
        assert_eq!(StreamingMarkdownFilter::filter(&s), reference(&s), "input {s:?}");
    }
}

#[test]
fn outbound_text_filters_only_when_enabled() {
    assert_eq!(outbound_text("**中文**", true), "中文\n");
    assert_eq!(outbound_text("**中文**", false), "**中文**");
}
