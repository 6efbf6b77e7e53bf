use ixgateway::secret::{compute_own_skill_tool_names, percent_encode_tool_name_component, unlimited_concurrency, OwnSkillToolRoute};

fn skill(t: &str, n: &str, k: &str) -> OwnSkillToolRoute {
    OwnSkillToolRoute { owner_tenant: t.to_string(), owner_namespace: n.to_string(), skillname: k.to_string(), description: None }
}

fn name_of(names: &[((String, String, String), String)], t: &str, n: &str, k: &str) -> String {
    names
        .iter()
        .find(|(key, _)| key.0 == t && key.1 == n && key.2 == k)
        .map(|(_, v)| v.clone())
        .unwrap()
}

#[test]
fn unique_skills_keep_their_bare_names() {
    let skills = vec![skill("acme", "default", "pricing"), skill("acme", "default", "search")];
    let names = compute_own_skill_tool_names(&skills);
    assert_eq!(names.len(), 2);
    assert_eq!(name_of(&names, "acme", "default", "pricing"), "pricing");
    assert_eq!(name_of(&names, "acme", "default", "search"), "search");
}

#[test]
fn clashing_or_dotted_names_are_qualified() {
    let skills = vec![skill("acme", "ns1", "pricing"), skill("acme", "ns2", "pricing"), skill("a b", "n", "v1.2")];
    let names = compute_own_skill_tool_names(&skills);
    assert_eq!(name_of(&names, "acme", "ns1", "pricing"), "pricing.ns1.acme");
    assert_eq!(name_of(&names, "acme", "ns2", "pricing"), "pricing.ns2.acme");
    assert_eq!(name_of(&names, "a b", "n", "v1.2"), "v1%2E2.n.a%20b");
}

#[test]
fn duplicate_skills_get_one_entry() {
    let skills = vec![skill("a", "n", "k"), skill("a", "n", "k")];
    let names = compute_own_skill_tool_names(&skills);
    assert_eq!(names.len(), 1);
    assert_eq!(name_of(&names, "a", "n", "k"), "k.n.a");
}

#[test]
fn percent_encoding_keeps_unreserved_bytes() {
    assert_eq!(percent_encode_tool_name_component("Ab-_~9"), "Ab-_~9");
    assert_eq!(percent_encode_tool_name_component("a/b"), "a%2Fb");
    assert_eq!(percent_encode_tool_name_component("é"), "%C3%A9");
    assert_eq!(unlimited_concurrency(), -1);
}
