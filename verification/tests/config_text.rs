use bloocava::config::{
    color_value_would_panic, extract_color_value, parse_config, parse_config_panics, CavaConfig,
};
use bloocava::rewrite::{apply_gradient, apply_solid_color};

const SAMPLE: &str = "[general]\nframerate = 60\n\n[color]\n; background = 'black'\ngradient = 1\ngradient_count = 2\ngradient_color_1 = '#111111'\ngradient_color_2 = '#222222'\nforeground = 'red'\n\n[smoothing]\nnoise_reduction = 77\n";

#[test]
fn default_config_is_empty() {
    let c = CavaConfig::default();
    assert!(!c.gradient);
    assert!(c.gradient_colors.is_empty());
    assert_eq!(c.foreground, "");
    assert_eq!(c.background, "");
}

#[test]
fn extract_strips_quotes_and_spaces() {
    assert_eq!(extract_color_value("  '#ff0000' "), "#ff0000");
    assert_eq!(extract_color_value(" red "), "red");
    assert_eq!(extract_color_value("''"), "");
    assert_eq!(extract_color_value("'a"), "'a");
    assert_eq!(extract_color_value("' a '"), " a ");
}

#[test]
fn lone_quote_is_the_panicking_value() {
    assert!(color_value_would_panic(&" ' ".chars().collect()));
    assert!(!color_value_would_panic(&"''".chars().collect()));
    assert!(!color_value_would_panic(&"".chars().collect()));
}

#[test]
fn reads_the_color_section() {
    let c = parse_config(SAMPLE);
    assert!(c.gradient);
    assert_eq!(c.foreground, "red");
    assert_eq!(c.background, "black");
    assert!(c.gradient_colors.is_empty());
}

#[test]
fn ignores_settings_outside_the_color_section() {
    let c = parse_config("foreground = 'blue'\n[color]\n[other]\nforeground = 'green'\n");
    assert_eq!(c.foreground, "");
    assert!(!c.gradient);
}

#[test]
fn reads_the_unnumbered_gradient_color_key() {
    let c = parse_config("[color]\ngradient_color_ = '#abcdef'\ngradient_color_1 = '#000000'\n");
    assert_eq!(c.gradient_colors, vec!["#abcdef".to_string()]);
}

#[test]
fn gradient_switch_needs_exactly_one() {
    assert!(!parse_config("[color]\ngradient = 2\n").gradient);
    assert!(parse_config("[color]\r\ngradient=1\r\n").gradient);
    assert!(!parse_config("[color]\ngradient = 1\ngradient = 0").gradient);
}

#[test]
fn panicking_configuration_is_detected() {
    assert!(parse_config_panics("[color]\nforeground = '\n"));
    assert!(!parse_config_panics("foreground = '\n[color]\n"));
    assert!(!parse_config_panics(SAMPLE));
}

#[test]
fn solid_rewrite_of_sample() {
    let out = apply_solid_color(SAMPLE, "#ff0000");
    assert_eq!(
        out,
        "[general]\nframerate = 60\n\n[color]\n; background = 'black'\ngradient = 0\nforeground = '#ff0000'\n\n[smoothing]\nnoise_reduction = 77"
    );
}

#[test]
fn solid_rewrite_adds_missing_settings() {
    assert_eq!(
        apply_solid_color("[color]\nbackground = 'x'\n[next]\n", "#123456"),
        "[color]\nbackground = 'x'\ngradient = 0\nforeground = '#123456'\n[next]"
    );
    assert_eq!(
        apply_solid_color("[color]", "#123456"),
        "[color]\ngradient = 0\nforeground = '#123456'"
    );
    assert_eq!(apply_solid_color("[general]\nx = 1\n", "#123456"), "[general]\nx = 1");
    assert_eq!(apply_solid_color("", "#123456"), "");
}

#[test]
fn gradient_rewrite_of_sample() {
    let colors = vec!["#000000".to_string(), "#ffffff".to_string(), "#ff00ff".to_string()];
    let out = apply_gradient(SAMPLE, &colors);
    assert_eq!(
        out,
        "[general]\nframerate = 60\n\n[color]\n; background = 'black'\ngradient = 1\ngradient_count = 2\nforeground = 'red'\n\ngradient_color_1 = '#000000'\ngradient_color_2 = '#ffffff'\ngradient_color_3 = '#ff00ff'\n[smoothing]\nnoise_reduction = 77"
    );
}

#[test]
fn gradient_rewrite_adds_missing_settings() {
    let colors = vec!["#000000".to_string(), "#ffffff".to_string()];
    assert_eq!(
        apply_gradient("[color]\nforeground = 'red'\n", &colors),
        "[color]\nforeground = 'red'\ngradient = 1\ngradient_color_1 = '#000000'\ngradient_color_2 = '#ffffff'"
    );
}

#[test]
fn gradient_numbers_past_nine() {
    let colors: Vec<String> = (0..11).map(|i| format!("#{:06x}", i)).collect();
    let out = apply_gradient("[color]\n", &colors);
    assert!(out.ends_with("gradient_color_10 = '#000009'\ngradient_color_11 = '#00000a'"));
}

#[test]
fn solid_color_reads_back() {
    let out = apply_solid_color(SAMPLE, "#00ff00");
    let c = parse_config(&out);
    assert!(!c.gradient);
    assert_eq!(c.foreground, "#00ff00");
    assert_eq!(c.background, "black");
}

#[test]
fn gradient_reads_back_switched_on_without_colors() {
    let colors = vec!["#000000".to_string(), "#ffffff".to_string()];
    let c = parse_config(&apply_gradient("[color]\ngradient = 0\n", &colors));
    assert!(c.gradient);
    assert!(c.gradient_colors.is_empty());
}

#[test]
fn stray_switch_defeats_read_back() {
    let out = apply_solid_color("[color]\ngradient=1\n", "#00ff00");
    assert_eq!(out, "[color]\ngradient=1\ngradient = 0\nforeground = '#00ff00'");
    let out = apply_solid_color("[color]\ngradient = 1\ngradient\t= 1\n", "#00ff00");
    assert!(parse_config(&out).gradient);
}

#[test]
fn gradient_write_keeps_foreground_and_background() {
    let colors = vec!["#000000".to_string(), "#ffffff".to_string()];
    let before = parse_config(SAMPLE);
    let after = parse_config(&apply_gradient(SAMPLE, &colors));
    assert!(after.gradient);
    assert_eq!(after.foreground, before.foreground);
    assert_eq!(after.background, before.background);
}

#[test]
fn writing_twice_changes_nothing() {
    let once = apply_solid_color(SAMPLE, "#abcdef");
    assert_eq!(apply_solid_color(&once, "#abcdef"), once);
    let colors = vec!["#000000".to_string(), "#ffffff".to_string()];
    let once = apply_gradient(SAMPLE, &colors);
    assert_eq!(apply_gradient(&once, &colors), once);
}

#[test]
fn writing_twice_loses_a_trailing_empty_line() {
    assert_eq!(apply_solid_color("[x]\n\n", "#abcdef"), "[x]\n");
    assert_eq!(apply_solid_color("[x]\n", "#abcdef"), "[x]");
}

#[test]
fn solid_over_gradient_is_solid_alone() {
    let colors = vec!["#000000".to_string(), "#ffffff".to_string(), "#ff00ff".to_string()];
    let over = apply_solid_color(&apply_gradient(SAMPLE, &colors), "#123456");
    assert_eq!(over, apply_solid_color(SAMPLE, "#123456"));
}

#[test]
fn lines_before_the_color_section_are_kept() {
    let text = "[general]\nframerate = 60\n; gradient = 1\n[color]\ngradient = 1\n";
    assert!(apply_solid_color(text, "#123456").starts_with("[general]\nframerate = 60\n; gradient = 1\n[color]\n"));
    let colors = vec!["#000000".to_string(), "#ffffff".to_string()];
    assert_eq!(apply_gradient("[general]\nx = 1", &colors), "[general]\nx = 1");
}

#[test]
fn reading_ignores_other_sections_and_comment_marks() {
    let plain = parse_config("[color]\nforeground = 'red'\nbackground = 'blue'\n");
    let noisy = parse_config("[a]\nforeground = 'x'\n[color]\n; foreground = 'red'\nbackground = 'blue'\n[b]\nbackground = 'y'\n");
    assert_eq!(noisy, plain);
}

#[test]
fn a_single_empty_line_stays_empty() {
    assert_eq!(apply_solid_color("\n", "#abcdef"), "");
    assert_eq!(apply_solid_color("", "#abcdef"), "");
    let colors = vec!["#000000".to_string(), "#ffffff".to_string()];
    assert_eq!(apply_gradient("\n", &colors), "");
    assert_eq!(apply_solid_color(&apply_gradient("\n", &colors), "#abcdef"), apply_solid_color("\n", "#abcdef"));
}

#[test]
fn rewritten_text_reads_without_panic() {
    let text = "[color]\nforeground = '\nbackground = 'navy'\n";
    assert!(parse_config_panics(text));
    assert!(!parse_config_panics(&apply_solid_color(text, "#123456")));
    let colors = vec!["#000000".to_string(), "#ffffff".to_string()];
    assert!(!parse_config_panics(&apply_gradient(SAMPLE, &colors)));
    assert!(!parse_config_panics(&apply_solid_color(SAMPLE, "#123456")));
}
