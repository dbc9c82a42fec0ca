use artifact_name::Name;
use artifact_name::NameCache;

/// Given a list of `(name, expected)`, assert that `method(name) == expected`.
fn assert_method<F>(method: F, values: &[(&str, Option<&str>)])
where
    F: Fn(&Name, &mut NameCache) -> Option<Name>,
{
    let mut cache = NameCache::new();
    let errors = values
        .iter()
        .map(|&(name, expected)| {
            (
                cache.get(name).unwrap(),
                expected.map(|n| cache.get(n).unwrap()),
            )
        })
        .collect::<Vec<_>>()
        .into_iter()
        .filter_map(|(name, expected)| {
            let result = method(&name, &mut cache);
            if result == expected {
                None
            } else {
                Some(format!(
                    "input={:?} expect={:?} result={:?}",
                    name, expected, result
                ))
            }
        })
        .collect::<Vec<_>>();
    if !errors.is_empty() {
        panic!("The method had unexpected results:\n{:#?}", errors);
    }
}

#[test]
fn family_sanity_parent() {
    assert_method(
        Name::parent,
        &[
            // no parents
            ("REQ-foo", None),
            ("TST-a", None),
            ("TST-23kjskljef32", None),
            // has parents
            ("REQ-a-b", Some("REQ-a")),
            ("REQ-A-B", Some("REQ-A")),
            ("REQ-aasdf-bbSdf-DES", Some("REQ-aasdf-bbSdf")),
        ],
    );
}

#[test]
fn family_sanity_auto_partof() {
    assert_method(
        Name::auto_partof,
        &[
            ("REQ-foo", None),
            ("REQ-a-b", None),
            ("REQ-A-B", None),
            ("spc-aasdf-bbSdf-DES", Some("REQ-aasdf-bbSdf-DES")),
            ("TSt-a", Some("SPC-a")),
            ("TST-23kjskljef32", Some("SPC-23kjskljef32")),
        ],
    );
}

#[test]
fn parent_keeps_the_text_as_written() {
    let mut cache = NameCache::new();
    let name = cache.get("tSt-Foo-bAr-BAZ").unwrap();
    let parent = name.parent(&mut cache).unwrap();
    assert_eq!(parent.as_str(), "tSt-Foo-bAr");
    assert_eq!(parent.key_str(), "TST-FOO-BAR");
    let grand = parent.parent(&mut cache).unwrap();
    assert_eq!(grand.as_str(), "tSt-Foo");
    assert_eq!(grand.parent(&mut cache), None);
}

#[test]
fn parent_of_three_segments() {
    let mut cache = NameCache::new();
    let name = cache.get("TST-a-b-c").unwrap();
    let parent = name.parent(&mut cache).unwrap();
    assert_eq!(parent.as_str(), "TST-a-b");
    assert_eq!(parent, cache.get("TST-a-b").unwrap());
}

#[test]
fn parent_is_made_by_the_cache() {
    let mut cache = NameCache::new();
    let name = cache.get("REQ-a-b").unwrap();
    assert_eq!(cache.len(), 1);
    let parent = name.parent(&mut cache).unwrap();
    assert_eq!(cache.len(), 2);
    let again = cache.get("REQ-a").unwrap();
    assert_eq!(cache.len(), 2);
    assert!(std::ptr::eq::<artifact_name::InternalName>(&*parent, &*again));
    // A name of one segment has no parent, and the cache is not asked.
    assert_eq!(again.parent(&mut cache), None);
    assert_eq!(cache.len(), 2);
}

#[test]
fn auto_partof_keeps_the_segments_as_written() {
    let mut cache = NameCache::new();
    let spc = cache.get("SPC-foo-bar").unwrap();
    let req = spc.auto_partof(&mut cache).unwrap();
    assert_eq!(req.as_str(), "REQ-foo-bar");
    let tst = cache.get("TsT-a").unwrap();
    let linked = tst.auto_partof(&mut cache).unwrap();
    assert_eq!(linked.as_str(), "SPC-a");
    assert_eq!(linked.ty, artifact_name::Type::SPC);
    let mixed = cache.get("tst-Foo_Bar-9").unwrap();
    let linked = mixed.auto_partof(&mut cache).unwrap();
    assert_eq!(linked.as_str(), "SPC-Foo_Bar-9");
    assert_eq!(linked.key_str(), "SPC-FOO_BAR-9");
    assert_eq!(
        linked.auto_partof(&mut cache).unwrap().as_str(),
        "REQ-Foo_Bar-9"
    );
}

#[test]
fn auto_partof_of_a_requirement_leaves_the_cache() {
    let mut cache = NameCache::new();
    let req = cache.get("req-x").unwrap();
    assert_eq!(req.auto_partof(&mut cache), None);
    assert_eq!(cache.len(), 1);
    let tst = cache.get("TST-x").unwrap();
    assert!(tst.auto_partof(&mut cache).is_some());
    assert_eq!(cache.len(), 3);
    assert_eq!(cache.key_count(), 3);
}

/// A small generator of numbers, the same at each run.
struct Numbers(u64);

impl Numbers {
    fn next(&mut self, below: usize) -> usize {
        self.0 = self
            .0
            .wrapping_mul(6364136223846793005)
            .wrapping_add(1442695040888963407);
        ((self.0 >> 33) as usize) % below
    }

    fn name(&mut self) -> String {
        let tags = ["REQ", "SPC", "TST", "req", "sPc", "TsT"];
        let chars: Vec<char> = "abcxyzABCXYZ0189_".chars().collect();
        let mut cells = vec![tags[self.next(tags.len())].to_string()];
        for _ in 0..1 + self.next(5) {
            let mut cell = String::new();
            for _ in 0..1 + self.next(8) {
                cell.push(chars[self.next(chars.len())]);
            }
            cells.push(cell);
        }
        cells.join("-")
    }
}

#[test]
fn many_names_parent() {
    let mut numbers = Numbers(7);
    let mut cache = NameCache::new();
    for _ in 0..500 {
        cache.clear();
        let raw = numbers.name();
        let name = cache.get(&raw).unwrap();
        let mut items = raw.split('-').map(|s| s.to_string()).collect::<Vec<_>>();
        if items.len() > 2 {
            items.pop();
            let expected_raw = items.join("-");
            let expected = cache.get(&expected_raw).unwrap();
            let result = name.parent(&mut cache).unwrap();
            assert_eq!(expected_raw, result.raw);
            assert_eq!(expected, result);
        } else {
            assert!(name.parent(&mut cache).is_none());
        }
    }
}

#[test]
fn many_names_auto_partof() {
    let mut numbers = Numbers(11);
    let mut cache = NameCache::new();
    for _ in 0..500 {
        cache.clear();
        let raw = numbers.name();
        let name = cache.get(&raw).unwrap();
        let ty = match name.ty {
            artifact_name::Type::REQ => {
                assert!(name.auto_partof(&mut cache).is_none());
                continue;
            }
            artifact_name::Type::SPC => "REQ",
            artifact_name::Type::TST => "SPC",
        };
        let mut items = raw.split('-').map(|s| s.to_string()).collect::<Vec<_>>();
        items[0] = ty.into();
        let expected_raw = items.join("-");
        let expected = cache.get(&expected_raw).unwrap();
        let result = name.auto_partof(&mut cache).unwrap();
        assert_eq!(expected_raw, result.raw);
        assert_eq!(expected, result);
    }
}

#[test]
fn many_names_key_round_trip() {
    let mut numbers = Numbers(13);
    let mut cache = NameCache::new();
    for _ in 0..500 {
        cache.clear();
        let name = cache.get(&numbers.name()).unwrap();
        let repr = name.key_str().to_string();
        let from_repr = cache.get(&repr).unwrap();
        assert_eq!(from_repr, name);
        assert_eq!(repr, from_repr.key_str());
        assert_eq!(repr, from_repr.as_str());
    }
}
