use vhm_core::display_names::{
    internal_asset_name, player_name_for_display,
    agent_name_filter_values, localized_agent_name_for_display, map_name_for_display, weapon_name_for_display,
};

#[test]
fn localizes_agent_aliases_and_expands_them_for_library_filters() {
    assert_eq!(localized_agent_name_for_display("Jett").as_deref(), Some("捷风"));
    assert_eq!(
        localized_agent_name_for_display("/Game/Characters/Jett/Jett_PrimaryAsset.Jett_PrimaryAsset_C").as_deref(),
        Some("捷风")
    );
    assert_eq!(localized_agent_name_for_display("Vampire").as_deref(), Some("芮娜"));
    assert_eq!(localized_agent_name_for_display("KAY/O").as_deref(), Some("K/O"));
    assert_eq!(localized_agent_name_for_display("K/O").as_deref(), Some("K/O"));
    assert_eq!(localized_agent_name_for_display("Miks").as_deref(), Some("迷核"));
    assert!(localized_agent_name_for_display("unknown-agent").is_none());

    let jett_values = agent_name_filter_values("捷风");
    assert!(jett_values.iter().any(|value| value == "捷风"));
    assert!(jett_values.iter().any(|value| value == "Jett"));

    let reyna_values = agent_name_filter_values("Reyna");
    assert!(reyna_values.iter().any(|value| value == "芮娜"));
    assert!(reyna_values.iter().any(|value| value == "Reyna"));
    assert!(reyna_values.iter().any(|value| value == "Vampire"));

    let kayo_values = agent_name_filter_values("K/O");
    assert!(kayo_values.iter().any(|value| value == "K/O"));
    assert!(kayo_values.iter().any(|value| value == "KAY/O"));
    assert!(kayo_values.iter().any(|value| value == "Kayo"));
}

#[test]
fn maps_every_standard_map_alias_to_the_mainland_chinese_name() {
    for (alias, expected) in [
        ("/Game/Maps/Plummet/Plummet", "天枢云阙"),
        ("Summit", "天枢云阙"),
        ("Rook", "盐海矿镇"),
        ("Corrode", "盐海矿镇"),
        ("Infinity", "幽邃地窟"),
        ("Abyss", "幽邃地窟"),
        ("Juliett", "日落之城"),
        ("Sunset", "日落之城"),
        ("Jam", "莲华古城"),
        ("Lotus", "莲华古城"),
        ("Pitt", "深海明珠"),
        ("Pearl", "深海明珠"),
        ("Canyon", "裂变峡谷"),
        ("Fracture", "裂变峡谷"),
        ("Foxtrot", "微风岛屿"),
        ("Breeze", "微风岛屿"),
        ("Port", "森寒冬港"),
        ("Icebox", "森寒冬港"),
        ("Ascent", "亚海悬城"),
        ("Bonsai", "霓虹町"),
        ("Split", "霓虹町"),
        ("Triad", "隐世修所"),
        ("Haven", "隐世修所"),
        ("Duality", "源工重镇"),
        ("Bind", "源工重镇"),
    ] {
        assert_eq!(map_name_for_display(alias).as_deref(), Some(expected), "alias {alias}");
    }
}

#[test]
fn maps_wonderful_weapon_paths_and_skin_assets_to_display_names() {
    for (value, expected) in [
        ("/Game/Maps/Pitt/Pitt.Pitt:PersistentLevel.AssaultRifle_AK_C_2147000127", "狂徒"),
        (
            "AssaultRifle_ACR_SpecOps_PrimaryAsset_C /Game/Equippables/Guns/Rifles/AssaultRifle_ACR/SpecOps/AssaultRifle_ACR_SpecOps_PrimaryAsset.Default__AssaultRifle_ACR_SpecOps_PrimaryAsset_C",
            "幻影",
        ),
        ("/Game/Maps/Duality/Duality.Duality:PersistentLevel.LugerPistol_C_2147311741", "鬼魅"),
    ] {
        assert_eq!(weapon_name_for_display(value).as_deref(), Some(expected), "weapon value {value}");
    }
}

#[test]
fn filter_values_name_one_agent_once_each() {
    let values = agent_name_filter_values("Vampire");
    assert_eq!(values[0], "芮娜");
    for value in &values {
        assert_eq!(localized_agent_name_for_display(value).as_deref(), Some("芮娜"));
    }
    for i in 0..values.len() {
        for j in (i + 1)..values.len() {
            assert!(!values[i].eq_ignore_ascii_case(&values[j]));
        }
    }
    assert!(agent_name_filter_values("unknown-agent").is_empty());
}

#[test]
fn every_localized_name_is_its_own_localization() {
    let canonical: Vec<&str> = vhm_core::display_names::AGENT_NAME_ALIASES
        .iter()
        .map(|(alias, _)| *alias)
        .chain(vhm_core::display_names::AGENT_NAME_ALIASES.iter().map(|(_, name)| *name))
        .chain(vhm_core::display_names::LOCALIZED_AGENT_NAMES.iter().copied())
        .collect();
    for value in canonical {
        let localized = localized_agent_name_for_display(value);
        assert_eq!(localized.is_some(), vhm_core::display_names::agent_name_for_display(value).is_some(), "{value}");
        if let Some(name) = localized {
            assert!(vhm_core::display_names::LOCALIZED_AGENT_NAMES.contains(&name.as_str()), "{name}");
            assert_eq!(localized_agent_name_for_display(&name).as_deref(), Some(name.as_str()));
            let values = agent_name_filter_values(value);
            assert_eq!(values[0], name);
        }
    }
}

#[test]
fn player_names_are_clean_and_plain_names_are_stable() {
    assert_eq!(player_name_for_display("  Alpha # CN1 ").as_deref(), Some("Alpha#CN1"));
    assert_eq!(player_name_for_display("Alpha#CN1").as_deref(), Some("Alpha#CN1"));
    assert_eq!(player_name_for_display(" 旅行者 ").as_deref(), Some("旅行者"));
    assert_eq!(player_name_for_display("旅行者").as_deref(), Some("旅行者"));
    assert_eq!(player_name_for_display("a## #b").as_deref(), Some("a##b"));
    assert_eq!(player_name_for_display("a##b").as_deref(), Some("a#b"));
    assert_eq!(player_name_for_display("#tag"), None);
    assert_eq!(player_name_for_display("Player#1234").as_deref(), Some("Player#1234"));
    assert_eq!(player_name_for_display(" Player #  #1234 ").as_deref(), Some("Player#1234"));
    assert_eq!(player_name_for_display("Player # 12#34").as_deref(), Some("Player#12#34"));
    assert_eq!(player_name_for_display("Player#12#34").as_deref(), Some("Player#12#34"));
}

#[test]
fn internal_asset_names_are_plain() {
    assert_eq!(
        internal_asset_name("/Game/Characters/Jett/Jett_PrimaryAsset.Jett_PrimaryAsset_C").as_deref(),
        Some("Jett")
    );
    assert_eq!(internal_asset_name("Jett"), None);
}
