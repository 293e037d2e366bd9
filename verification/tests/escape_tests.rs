use vtt_builder::escape::{escape_vtt_text, unescape_vtt_text};

#[test]
fn escape_replaces_the_three_characters() {
    assert_eq!(escape_vtt_text("Tom & Jerry say 1 < 2"), "Tom &amp; Jerry say 1 &lt; 2");
    assert_eq!(escape_vtt_text("a > b"), "a &gt; b");
    assert_eq!(escape_vtt_text("x --> y"), "x --&gt; y");
    assert_eq!(escape_vtt_text(""), "");
    assert_eq!(escape_vtt_text("plain"), "plain");
}

#[test]
fn escape_does_not_escape_its_own_entities_twice() {
    assert_eq!(escape_vtt_text("<&>"), "&lt;&amp;&gt;");
    assert_eq!(escape_vtt_text("&amp;"), "&amp;amp;");
    assert_eq!(escape_vtt_text("&&"), "&amp;&amp;");
}

#[test]
fn unescape_replaces_the_six_entities() {
    assert_eq!(unescape_vtt_text("&amp;&lt;&gt;"), "&<>");
    assert_eq!(unescape_vtt_text("a&nbsp;b"), "a\u{00A0}b");
    assert_eq!(unescape_vtt_text("&lrm;x&rlm;"), "\u{200E}x\u{200F}");
    assert_eq!(unescape_vtt_text("&quot;"), "&quot;");
    assert_eq!(unescape_vtt_text("&amp"), "&amp");
}

#[test]
fn unescape_goes_entity_by_entity() {
    assert_eq!(unescape_vtt_text("&amp;lt;"), "<");
    assert_eq!(unescape_vtt_text("&amp;nbsp;"), "\u{00A0}");
}

#[test]
fn unescape_undoes_escape_on_markup_characters() {
    let alphabet = ['&', '<', '>'];
    let mut x = String::new();
    for n in 0..200usize {
        x.push(alphabet[(n * n + n / 3) % 3]);
        assert_eq!(unescape_vtt_text(&escape_vtt_text(&x)), x);
    }
    for x in ["", "&", "<", ">", "&<", "<&", "&&&", "><><", "&<>&<>"] {
        assert_eq!(unescape_vtt_text(&escape_vtt_text(x)), x);
    }
    assert_eq!(unescape_vtt_text(&escape_vtt_text("Tom & Jerry say 1 < 2")), "Tom & Jerry say 1 < 2");
}
