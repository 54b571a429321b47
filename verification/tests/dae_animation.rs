use asset_importer_rs::dae::anim_combine::{AnimEntry, combine_single_channel_anims};

/// Animations with their timing (duration, ticks per second); the key of
/// each is the position of the first animation with the same timing.
fn keyed(anims: Vec<(String, (f64, f64), Vec<(String, ())>)>) -> Vec<AnimEntry<(f64, f64), ()>> {
    let timings: Vec<(f64, f64)> = anims.iter().map(|a| a.1).collect();
    anims
        .into_iter()
        .enumerate()
        .map(|(i, (name, timing, channels))| AnimEntry {
            name,
            timing,
            timing_key: timings.iter().position(|t| *t == timing).unwrap_or(i),
            channels,
        })
        .collect()
}

fn single_channel_ai(name: &str, node_name: &str, duration: f64) -> (String, (f64, f64), Vec<(String, ())>) {
    (name.to_string(), (duration, 1000.0), vec![(node_name.to_string(), ())])
}

#[test]
fn combines_single_channel_ai_animations_with_distinct_nodes() {
    let anims = keyed(vec![
        single_channel_ai("one", "Root", 1000.0),
        single_channel_ai("two", "Child", 1000.0),
    ]);
    let anims = combine_single_channel_anims(anims);
    assert_eq!(anims.len(), 1);
    assert_eq!(anims[0].name, "combinedAnim_0");
    assert_eq!(anims[0].timing.0, 1000.0);
    assert_eq!(anims[0].timing.1, 1000.0);
    assert_eq!(
        anims[0].channels.iter().map(|channel| channel.0.as_str()).collect::<Vec<_>>(),
        vec!["Root", "Child"]
    );
}

#[test]
fn deletes_collected_animations_after_combining_all_groups() {
    let anims = keyed(vec![
        single_channel_ai("one", "Root", 1000.0),
        single_channel_ai("two", "Arm", 2000.0),
        single_channel_ai("three", "Leg", 2000.0),
        single_channel_ai("four", "Child", 1000.0),
    ]);
    let anims = combine_single_channel_anims(anims);
    assert_eq!(anims.len(), 2);
    assert_eq!(anims[0].name, "combinedAnim_0");
    assert_eq!(anims[1].name, "combinedAnim_1");
}

#[test]
fn does_not_combine_ai_animations_that_share_a_node() {
    let anims = keyed(vec![
        single_channel_ai("one", "Root", 1000.0),
        single_channel_ai("two", "Root", 1000.0),
    ]);
    let anims = combine_single_channel_anims(anims);
    assert_eq!(anims.len(), 2);
}

#[test]
fn animations_with_several_channels_are_left_alone() {
    let anims = keyed(vec![
        ("both".to_string(), (1.0, 1.0), vec![("A".to_string(), ()), ("B".to_string(), ())]),
        single_channel_ai("solo", "C", 1.0),
    ]);
    let anims = combine_single_channel_anims(anims);
    assert_eq!(anims.len(), 2);
    assert_eq!(anims[0].name, "both");
    assert_eq!(anims[1].name, "solo");
}

#[test]
fn combining_keeps_the_number_of_channels() {
    let input = vec![
        single_channel_ai("one", "Root", 1000.0),
        ("pair".to_string(), (1000.0, 1000.0), vec![("A".to_string(), ()), ("B".to_string(), ())]),
        single_channel_ai("two", "Arm", 2000.0),
        single_channel_ai("three", "Leg", 2000.0),
        single_channel_ai("four", "Child", 1000.0),
        single_channel_ai("five", "Root", 3000.0),
        single_channel_ai("six", "Root", 3000.0),
    ];
    let before: usize = input.iter().map(|a| a.2.len()).sum();
    let mut nodes_before: Vec<String> = input.iter().flat_map(|a| a.2.iter().map(|c| c.0.clone())).collect();
    let anims = combine_single_channel_anims(keyed(input));
    let mut nodes_after: Vec<String> =
        anims.iter().flat_map(|a| a.channels.iter().map(|c| c.0.clone())).collect();
    nodes_before.sort();
    nodes_after.sort();
    assert_eq!(nodes_after, nodes_before);
    assert!(anims.len() <= 7);
    let after: usize = anims.iter().map(|a| a.channels.len()).sum();
    assert_eq!(before, 8);
    assert_eq!(after, before);
    let names: Vec<&str> = anims.iter().map(|a| a.name.as_str()).collect();
    assert_eq!(names, vec!["combinedAnim_0", "pair", "combinedAnim_2", "five", "six"]);
}
