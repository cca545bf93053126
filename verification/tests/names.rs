use orbit::ip::{IpSpec, Source};
use orbit::order::{stable_sort, SortKey};
use orbit::pkgid::{check_part_name, find_ip, PkgId, PkgPart};
use orbit::version::Version;

#[test]
fn part_names_start_with_a_letter() {
    for good in ["a", "lab1", "ks_tech", "ks-tech", "Gates", "x9_-"] {
        assert_eq!(PkgPart::from_str(good).map(|p| p.to_string()), Some(good.to_string()));
    }
    for bad in ["", "1lab", "_a", "-a", "a b", "a.b", "a:b", "naïve"] {
        assert_eq!(PkgPart::from_str(bad), None);
    }
    assert!(check_part_name(&"ok".chars().collect()));
    assert!(!check_part_name(&Vec::new()));
}

#[test]
fn part_names_are_compared_by_character() {
    let a = PkgPart::from_str("lab1").unwrap();
    assert!(a.equals(&a.clone()));
    assert!(!a.equals(&PkgPart::from_str("Lab1").unwrap()));
    assert!(a.le(&PkgPart::from_str("lab10").unwrap()));
    assert!(a.le(&PkgPart::from_str("lab2").unwrap()));
    assert!(!a.le(&PkgPart::from_str("lab").unwrap()));
    assert!(PkgPart::from_str("Zebra").unwrap().le(&a));
    assert_eq!(a.as_str(), "lab1");
}

#[test]
fn full_names_have_three_parts() {
    let id = PkgId::from_str("ks-tech.rary.gates").unwrap();
    assert_eq!(id.get_vendor().as_str(), "ks-tech");
    assert_eq!(id.get_library().as_str(), "rary");
    assert_eq!(id.get_name().as_str(), "gates");
    assert!(id.equals(&id.clone()));
    assert!(!id.equals(&PkgId::from_str("ks-tech.rary.gate").unwrap()));
    for bad in ["", "a", "a.b", "a.b.c.d", "a..c", ".b.c", "a.b.", "a.1.c"] {
        assert_eq!(PkgId::from_str(bad), None);
    }
}

#[test]
fn ip_spec_is_name_colon_version() {
    let spec = IpSpec::from_str("lab4:0.5.19").unwrap();
    assert_eq!(spec.get_name().as_str(), "lab4");
    assert_eq!(spec.get_version(), &Version::new(0, 5, 19));
    assert_eq!(spec.to_string(), "lab4:0.5.19");
    assert_eq!(IpSpec::from_str(&spec.to_string()), Some(spec));
    for bad in ["", "lab4", "lab4:", ":1.0.0", "lab4:1.0", "lab 4:1.0.0", "lab4:1.0.0:x", "lab4-1.0.0"] {
        assert_eq!(IpSpec::from_str(bad), None);
    }
    assert_eq!(Source::from_str("https://a.b").get_url(), "https://a.b");
}

fn key(name: &str, major: u32) -> SortKey {
    SortKey { name: name.chars().collect(), version: Version::new(major, 0, 0) }
}

#[test]
fn stable_sort_orders_by_name_then_version() {
    let keys = vec![key("b", 1), key("a", 2), key("ab", 0), key("a", 1), key("", 5), key("B", 9)];
    assert_eq!(stable_sort(&keys), vec![4, 5, 3, 1, 2, 0]);
    assert_eq!(stable_sort(&Vec::new()), Vec::<usize>::new());
}

#[test]
fn stable_sort_keeps_equal_keys_in_order() {
    let keys = vec![key("x", 1), key("a", 1), key("x", 1), key("a", 1), key("x", 1)];
    assert_eq!(stable_sort(&keys), vec![1, 3, 0, 2, 4]);
    assert!(key("a", 1).le(&key("a", 1)));
    assert!(!key("b", 1).le(&key("a", 9)));
}

#[test]
fn full_name_is_found_among_others() {
    let ids: Vec<PkgId> = ["ks.tech.gates", "ks.util.gates", "ks.tech.adder", "ks.util.gates"]
        .iter()
        .map(|s| PkgId::from_str(s).unwrap())
        .collect();
    assert_eq!(find_ip(&PkgId::from_str("ks.util.gates").unwrap(), &ids), Some(1));
    assert_eq!(find_ip(&PkgId::from_str("ks.tech.gates").unwrap(), &ids), Some(0));
    assert_eq!(find_ip(&PkgId::from_str("ks.tech.Gates").unwrap(), &ids), None);
    assert_eq!(find_ip(&PkgId::from_str("ks.tech.gates").unwrap(), &vec![]), None);
}
