use bdo_discord_rpc::keymap::KeyMap;
use bdo_discord_rpc::profile::{
    check_profile_url, encode, parse, parse_level, pick_profile_link, profile_from_page,
    resolve_from_results, search_page_url, skill_of, strip_query, hidden_note, Character, Profile,
};

const PAGE: &str = r#"<html><body>
<p class="nick">  Kuro  </p>
<ul class="line_list">
  <li><span class="desc">Nov 10, 2023, 18:53 (UTC+8)</span></li>
  <li><span class="desc">Lanterns</span></li>
  <li><em class="lock">Private</em><span class="desc">hidden</span></li>
  <li><span class="desc">300</span></li>
</ul>
<ul class="character_list">
  <li>
    <p class="character_name">Yuki <span class="selected_label">Main</span></p>
    <p class="character_info"><em class="icon_symbol">*</em><em>Deadeye</em><span>Lv</span><span>Lv. 61</span></p>
    <img class="icon_character_image" src="https://img/deadeye.png?v=3">
  </li>
  <li>
    <p class="character_name">  Alt   Two </p>
    <p class="character_info"><em>Witch</em><span>56</span></p>
  </li>
  <li><p class="character_info"><em>Nameless</em></p></li>
</ul>
<ul class="character_spec">
  <li><span class="icon_spec icn_spec02"></span><span class="spec_level">Skilled<em>9</em></span></li>
  <li><span class="icon_spec icn_spec99"></span><span class="spec_level">Guru 1</span></li>
</ul>
</body></html>"#;

#[test]
fn a_profile_page_is_read() {
    let p = parse(PAGE);
    assert_eq!(p.family.as_deref(), Some("Kuro"));
    assert_eq!(p.characters.len(), 2);
    let main = &p.characters[0];
    assert_eq!(main.name, "Yuki");
    assert!(main.is_main);
    assert_eq!(main.class, "Deadeye");
    assert_eq!(main.level, Some(61));
    assert_eq!(main.class_image.as_deref(), Some("https://img/deadeye.png"));
    let alt = &p.characters[1];
    assert_eq!(alt.name, "Alt Two");
    assert!(!alt.is_main);
    assert_eq!(alt.level, Some(56));
    assert_eq!(alt.class_image, None);
    assert_eq!(p.created.as_deref(), Some("Nov 10, 2023, 18:53 (UTC+8)"));
    assert_eq!(p.created_date().as_deref(), Some("Nov 10, 2023"));
    assert_eq!(p.guild.as_deref(), Some("Lanterns"));
    assert_eq!(p.gear_score, None);
    assert_eq!(p.energy.as_deref(), Some("300"));
    assert_eq!(p.contribution, None);
    assert!(p.hidden);
    assert_eq!(p.life_skills.get("Fishing").map(|s| s.as_str()), Some("Skilled 9"));
    assert_eq!(p.life_skills.len(), 1);
    assert_eq!(p.url, None);
    assert_eq!(p.fetched_at, 0);
}

#[test]
fn a_page_with_nothing_readable_is_refused() {
    match profile_from_page("https://x", "<html></html>", 5) {
        Err(e) => assert_eq!(e, "The Profile Page had no readable Data, is it public?"),
        Ok(_) => panic!("should be refused"),
    }
    let p = profile_from_page("https://x/p", PAGE, 77).expect("readable");
    assert_eq!(p.url.as_deref(), Some("https://x/p"));
    assert_eq!(p.fetched_at, 77);
    assert!(check_profile_url("  ").is_err());
    assert!(check_profile_url("https://x").is_ok());
}

#[test]
fn the_family_link_is_picked() {
    let html = r#"<a href="/Profile/Adventure?x=1">Someone</a>
        <a href="/Other">Kuro</a>
        <a href="/Profile/Adventure?x=2"> kuro </a>"#;
    assert_eq!(pick_profile_link(html, "KURO").as_deref(), Some("/Profile/Adventure?x=2"));
    assert_eq!(pick_profile_link(html, "Nobody").as_deref(), Some("/Profile/Adventure?x=1"));
    assert_eq!(pick_profile_link("<p>none</p>", "Kuro"), None);
    match resolve_from_results("<p>none</p>", "Kuro") {
        Err(e) => assert_eq!(e, "No Profile found for Kuro, is it public?"),
        Ok(_) => panic!("nothing to find"),
    }
}

#[test]
fn values_are_percent_encoded() {
    assert_eq!(encode("Kuro Neko"), "Kuro%20Neko");
    assert_eq!(encode("a-b_c.d~e"), "a-b_c.d~e");
    assert_eq!(encode("é"), "%C3%A9");
    assert_eq!(encode("?&="), "%3F%26%3D");
}

#[test]
fn search_addresses_are_built() {
    assert_eq!(search_page_url(" https://s/q?name={family}&t={family} ", "A B").unwrap(), "https://s/q?name=A%20B&t=A%20B");
    assert_eq!(search_page_url("https://s/q", "Kuro").unwrap(), "https://s/q?_type=2&_keyword=Kuro");
    assert_eq!(search_page_url("   ", "Kuro").unwrap_err(), "No Search URL for this Region");
}

#[test]
fn levels_and_skills_are_read() {
    assert_eq!(parse_level("Lv. 61"), Some(61));
    assert_eq!(parse_level("6 1"), Some(61));
    assert_eq!(parse_level("none"), None);
    assert_eq!(parse_level("99999999999"), None);
    assert_eq!(skill_of("icn_spec01"), Some("Gathering"));
    assert_eq!(skill_of("icn_spec11"), Some("Barter"));
    assert_eq!(skill_of("icn_spec+3"), Some("Hunting"));
    assert_eq!(skill_of("icn_spec12"), None);
    assert_eq!(skill_of("icn_spec00"), None);
    assert_eq!(skill_of("icn_spec"), None);
    assert_eq!(skill_of("icon_spec"), None);
}

#[test]
fn addresses_lose_their_query() {
    assert_eq!(strip_query("https://a/b.png?v=1&w=2".to_string()), "https://a/b.png");
    assert_eq!(strip_query("https://a/b.png".to_string()), "https://a/b.png");
}

#[test]
fn summaries_and_dates() {
    let c = Character { name: "Yuki".to_string(), class: "Deadeye".to_string(), level: Some(60), is_main: true, class_image: None };
    assert_eq!(c.summary(), "Yuki (Deadeye 60)");
    let d = Character { level: None, ..c };
    assert_eq!(d.summary(), "Yuki (Deadeye )");
    let mut p = Profile {
        family: None, guild: None, gear_score: None, energy: None, contribution: None,
        created: Some("2023. 11. 10. 18:53 (UTC+9)".to_string()), life_skills: KeyMap::new(),
        characters: Vec::new(), url: None, fetched_at: 0, hidden: false,
    };
    assert_eq!(p.created_date().as_deref(), Some("2023. 11. 10."));
    p.created = Some("Nov 10, 2023".to_string());
    assert_eq!(p.created_date().as_deref(), Some("Nov 10, 2023"));
    p.created = None;
    assert_eq!(p.created_date(), None);
}

#[test]
fn a_character_list_is_read_from_the_page() {
    let html = r#"<ul class="character_list"><li><p class="character_name">Yuki <span class="selected_label">Main</span></p><p class="character_info"><em>Deadeye</em><span>Lv. 60</span></p></li></ul><p class="nick">Fam</p>"#;
    let r = parse(html);
    assert_eq!(r.family.as_deref(), Some("Fam"));
    assert_eq!(r.characters.len(), 1);
    assert_eq!(r.characters[0].name, "Yuki");
    assert_eq!(r.characters[0].class, "Deadeye");
    assert_eq!(r.characters[0].level, Some(60));
    assert!(r.characters[0].is_main);
    assert_eq!(r.characters[0].class_image, None);
    assert!(!r.hidden);
    assert_eq!(r.life_skills.len(), 0);
    assert_eq!(r.created, None);
}

#[test]
fn details_and_skills_are_read_from_the_page() {
    let html = r#"<ul class="character_spec"><li><span class="icon_spec icn_spec02"></span><span class="spec_level">Skilled<em>9</em></span></li></ul><ul class="line_list"><li><span class="desc">Nov 10, 2023</span></li><li><span class="desc"><em class="lock">Private</em></span></li></ul>"#;
    let r = parse(html);
    assert_eq!(r.life_skills.len(), 1);
    assert_eq!(r.life_skills.get("Fishing").map(|s| s.as_str()), Some("Skilled 9"));
    assert_eq!(r.created.as_deref(), Some("Nov 10, 2023"));
    assert_eq!(r.guild, None);
    assert_eq!(r.gear_score, None);
    assert!(r.hidden);
    assert_eq!(r.family, None);
    assert!(r.characters.is_empty());
}

#[test]
fn the_search_page_links_decide() {
    let html = r#"<a href="https://x/Profile/Adventure?a=1">Other</a><a href="https://x/Profile/Adventure?a=2"> kuro </a><a href="/elsewhere">Kuro</a>"#;
    assert_eq!(resolve_from_results(html, "Kuro"), Ok("https://x/Profile/Adventure?a=2".to_string()));
    assert_eq!(resolve_from_results(html, "Nobody"), Ok("https://x/Profile/Adventure?a=1".to_string()));
    assert_eq!(
        resolve_from_results("<a href=\"/elsewhere\">Kuro</a>", "Kuro"),
        Err("No Profile found for Kuro, is it public?".to_string())
    );
}

#[test]
fn hidden_details_are_noted_with_the_profile_link() {
    let html = r#"<p class="nick">Fam</p><ul class="line_list"><li><span class="desc"><em class="lock">Private</em></span></li></ul>"#;
    let p = profile_from_page("https://x/Profile/Adventure?a=1", html, 5).unwrap();
    assert!(p.hidden);
    assert_eq!(
        hidden_note(&p).as_deref(),
        Some("Profile: Some Details are hidden, turn on Show Additional Info in the Privacy Settings of https://x/Profile/Adventure?a=1")
    );
    let open = profile_from_page("u", r#"<p class="nick">Fam</p>"#, 5).unwrap();
    assert_eq!(hidden_note(&open), None);
}
