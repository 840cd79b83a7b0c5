use vallis::commands::parse;
use vallis::options::{Layout, LayoutOptions};
use vallis::state::State;

fn fresh() -> State {
    State::new("vallis".to_string(), LayoutOptions::default())
}

fn after(commands: &[&str]) -> LayoutOptions {
    let mut state = fresh();
    state.current_tag = 1;
    for command in commands {
        parse(command.to_string(), &mut state);
    }
    state.options[0]
}

fn ratio_after(commands: &[&str]) -> u32 {
    after(commands).primary_ratio
}

fn gap_after(commands: &[&str]) -> u32 {
    after(commands).gap
}

#[test]
fn gap_absolute_is_clamped() {
    assert_eq!(gap_after(&["gap 200"]), 100);
}

#[test]
fn primary_ratio_relative_is_clamped_from_below() {
    assert_eq!(ratio_after(&["primary_ratio -0.9"]), 100_000);
}

#[test]
fn primary_ratio_relative_is_clamped_from_above() {
    assert_eq!(ratio_after(&["primary_ratio +10"]), 900_000);
}

#[test]
fn gap_relative_is_clamped_from_below() {
    assert_eq!(gap_after(&["gap -1000"]), 0);
    assert_eq!(gap_after(&["gap -4"]), 0);
    assert_eq!(gap_after(&["gap -5"]), 0);
    assert_eq!(gap_after(&["gap -3"]), 1);
}

#[test]
fn gap_relative_is_clamped_from_above() {
    assert_eq!(gap_after(&["gap +96"]), 100);
    assert_eq!(gap_after(&["gap +97"]), 100);
    assert_eq!(gap_after(&["gap +95"]), 99);
    assert_eq!(gap_after(&["gap +2147483647"]), 100);
    assert_eq!(gap_after(&["gap -2147483648"]), 0);
}

#[test]
fn gap_absolute_replaces() {
    assert_eq!(gap_after(&["gap 0"]), 0);
    assert_eq!(gap_after(&["gap 17"]), 17);
    assert_eq!(gap_after(&["gap 100"]), 100);
    assert_eq!(gap_after(&["gap 101"]), 100);
    assert_eq!(gap_after(&["gap 007"]), 7);
    assert_eq!(gap_after(&["gap 2147483647"]), 100);
}

#[test]
fn gap_relative_adds() {
    assert_eq!(gap_after(&["gap +1"]), 5);
    assert_eq!(gap_after(&["gap -1"]), 3);
    assert_eq!(gap_after(&["gap +0"]), 4);
    assert_eq!(gap_after(&["gap -0"]), 4);
    assert_eq!(gap_after(&["gap +10", "gap +10", "gap -3"]), 21);
}

#[test]
fn gap_beyond_32_bits_changes_nothing() {
    assert_eq!(gap_after(&["gap 2147483648"]), 4);
    assert_eq!(gap_after(&["gap +2147483648"]), 4);
    assert_eq!(gap_after(&["gap -2147483649"]), 4);
    assert_eq!(gap_after(&["gap 99999999999999999999999999"]), 4);
}

#[test]
fn gap_that_is_no_integer_changes_nothing() {
    for command in [
        "gap", "gap ", "gap x", "gap 1.5", "gap 1e2", "gap +", "gap -", "gap ++1", "gap 1_0",
        "gap 0x10", "gap 12a", "gap \u{0661}",
    ] {
        assert_eq!(after(&[command]), LayoutOptions::default(), "{command}");
    }
}

#[test]
fn primary_ratio_absolute_replaces() {
    assert_eq!(ratio_after(&["primary_ratio 0.5"]), 500_000);
    assert_eq!(ratio_after(&["primary_ratio 0.55"]), 550_000);
    assert_eq!(ratio_after(&["primary_ratio .25"]), 250_000);
    assert_eq!(ratio_after(&["primary_ratio 0.123456"]), 123_456);
    assert_eq!(ratio_after(&["primary_ratio 000.7000000"]), 700_000);
    assert_eq!(ratio_after(&["primary_ratio 0.9"]), 900_000);
    assert_eq!(ratio_after(&["primary_ratio 0.1"]), 100_000);
}

#[test]
fn primary_ratio_absolute_is_clamped() {
    assert_eq!(ratio_after(&["primary_ratio 0"]), 100_000);
    assert_eq!(ratio_after(&["primary_ratio 0.05"]), 100_000);
    assert_eq!(ratio_after(&["primary_ratio 0.0999994"]), 100_000);
    assert_eq!(ratio_after(&["primary_ratio 1"]), 900_000);
    assert_eq!(ratio_after(&["primary_ratio 1."]), 900_000);
    assert_eq!(ratio_after(&["primary_ratio 0.95"]), 900_000);
    assert_eq!(ratio_after(&["primary_ratio 123456789012345678901234567890.5"]), 900_000);
}

#[test]
fn primary_ratio_relative_adds() {
    assert_eq!(ratio_after(&["primary_ratio +0.05"]), 650_000);
    assert_eq!(ratio_after(&["primary_ratio -0.05"]), 550_000);
    assert_eq!(ratio_after(&["primary_ratio +0.000001"]), 600_001);
    assert_eq!(ratio_after(&["primary_ratio -.1", "primary_ratio -.1"]), 400_000);
    assert_eq!(ratio_after(&["primary_ratio +0"]), 600_000);
    assert_eq!(ratio_after(&["primary_ratio -123456789012345678901234567890"]), 100_000);
    assert_eq!(ratio_after(&["primary_ratio +123456789012345678901234567890"]), 900_000);
    assert_eq!(ratio_after(&["primary_ratio +0.3"]), 900_000);
    assert_eq!(ratio_after(&["primary_ratio +0.299999"]), 899_999);
}

#[test]
fn primary_ratio_rounds_to_nearest_millionth() {
    assert_eq!(ratio_after(&["primary_ratio 0.5000004"]), 500_000);
    assert_eq!(ratio_after(&["primary_ratio 0.5000005"]), 500_001);
    assert_eq!(ratio_after(&["primary_ratio 0.50000049999"]), 500_000);
    assert_eq!(ratio_after(&["primary_ratio 0.4999995"]), 500_000);
    assert_eq!(ratio_after(&["primary_ratio -0.0000005"]), 599_999);
    assert_eq!(ratio_after(&["primary_ratio -0.0000004"]), 600_000);
}

#[test]
fn primary_ratio_that_is_no_decimal_changes_nothing() {
    for command in [
        "primary_ratio", "primary_ratio ", "primary_ratio x", "primary_ratio .", "primary_ratio +",
        "primary_ratio -.", "primary_ratio 1e-1", "primary_ratio 0.5.5", "primary_ratio 0,5",
        "primary_ratio inf", "primary_ratio nan", "primary_ratio 0.5x", "primary_ratio --0.5",
        "primary_ratio 0.5000000x", "primary_ratio 0.50000000x",
    ] {
        assert_eq!(after(&[command]), LayoutOptions::default(), "{command}");
    }
}

#[test]
fn layout_command_switches_arrangement() {
    assert_eq!(after(&["layout stack"]).layout, Layout::Stack);
    assert_eq!(after(&["layout stack", "layout tile"]).layout, Layout::Tile);
}

#[test]
fn layout_command_with_unknown_name_changes_nothing() {
    for command in ["layout", "layout grid", "layout Tile", "layout mono_stack", "layout stack2"] {
        assert_eq!(after(&["layout stack", command]).layout, Layout::Stack, "{command}");
    }
}

#[test]
fn unknown_or_empty_commands_change_nothing() {
    for command in ["", " ", "\t\n", "gaps 5", "Gap 5", "ratio 0.5", "primary_ratio0.5", "5 gap"] {
        assert_eq!(after(&[command]), LayoutOptions::default(), "{command}");
    }
}

#[test]
fn unparsable_command_leaves_every_slot_unchanged() {
    let mut state = fresh();
    state.current_tag = 0b110;
    parse("gap 9".to_string(), &mut state);
    parse("primary_ratio 0.3".to_string(), &mut state);
    let before = state.options;
    for command in ["gap nine", "primary_ratio three", "layout none", "frobnicate 1", "gap", ""] {
        parse(command.to_string(), &mut state);
        assert_eq!(state.options, before, "{command}");
        assert_eq!(state.current_tag, 0b110);
        assert_eq!(state.namespace, "vallis");
    }
}

#[test]
fn words_are_split_on_any_white_space() {
    assert_eq!(gap_after(&["  gap   8  "]), 8);
    assert_eq!(gap_after(&["\tgap\n9"]), 9);
    assert_eq!(gap_after(&["gap\u{00A0}10"]), 10);
    assert_eq!(gap_after(&["\u{3000}gap\u{2003}11\u{2028}"]), 11);
    assert_eq!(gap_after(&["gap 12 trailing words"]), 12);
    // A zero-width space is no white space.
    assert_eq!(gap_after(&["gap\u{200B}13"]), 4);
}

#[test]
fn command_changes_only_the_selected_slot() {
    let mut state = fresh();
    state.current_tag = 1 << 5;
    parse("gap 50".to_string(), &mut state);
    for (slot, options) in state.options.iter().enumerate() {
        if slot == 5 {
            assert_eq!(options.gap, 50);
        } else {
            assert_eq!(*options, LayoutOptions::default());
        }
    }
}

#[test]
fn command_on_several_tags_changes_the_shared_slot() {
    let mut state = fresh();
    state.current_tag = 0b101;
    parse("layout stack".to_string(), &mut state);
    state.current_tag = 0;
    parse("gap 1".to_string(), &mut state);
    for (slot, options) in state.options.iter().enumerate() {
        if slot == 32 {
            assert_eq!(options.layout, Layout::Stack);
            assert_eq!(options.gap, 1);
        } else {
            assert_eq!(*options, LayoutOptions::default());
        }
    }
}

#[test]
fn numbers_stay_within_bounds_after_any_commands() {
    let commands = [
        "primary_ratio +10", "gap -1000", "primary_ratio -10", "gap +1000", "gap 4294967295",
        "primary_ratio 99999999999999", "gap +50", "gap +50", "gap +50", "primary_ratio +0.3",
        "primary_ratio +0.3", "primary_ratio -0.45", "primary_ratio -0.45", "layout stack",
    ];
    let mut state = fresh();
    for round in 0..3 {
        for (i, command) in commands.iter().enumerate() {
            state.current_tag = 1 << ((i + round) % 3);
            parse(command.to_string(), &mut state);
            for options in state.options.iter() {
                assert!((100_000..=900_000).contains(&options.primary_ratio));
                assert!(options.gap <= 100);
            }
        }
    }
}

#[test]
fn command_clamps_a_number_that_was_out_of_bounds() {
    let mut state = fresh();
    state.current_tag = 1;
    state.options[0].gap = 4_000_000_000;
    state.options[0].primary_ratio = 4_000_000_000;
    parse("gap -1".to_string(), &mut state);
    assert_eq!(state.options[0].gap, 100);
    assert_eq!(state.options[0].primary_ratio, 4_000_000_000);
    parse("primary_ratio -0.5".to_string(), &mut state);
    assert_eq!(state.options[0].primary_ratio, 900_000);
}
