use image_viewer::order::{path_precedes, SortKey};
use image_viewer::path::{components, extension, file_name, paths_equal};
use std::cmp::Ordering;
use std::path::{Component, Path};

fn all_paths(max_len: usize) -> Vec<String> {
    let alphabet = ['/', '.', 'a', 'b'];
    let mut out = vec![String::new()];
    let mut frontier = vec![String::new()];
    for _ in 0..max_len {
        let mut next = Vec::new();
        for s in &frontier {
            for c in alphabet {
                let mut t = s.clone();
                t.push(c);
                next.push(t);
            }
        }
        out.extend(next.iter().cloned());
        frontier = next;
    }
    out
}

fn std_components(s: &str) -> Vec<String> {
    Path::new(s)
        .components()
        .map(|c| match c {
            Component::RootDir => "/".to_string(),
            Component::CurDir => ".".to_string(),
            Component::ParentDir => "..".to_string(),
            Component::Normal(n) => n.to_str().unwrap().to_string(),
            Component::Prefix(_) => unreachable!(),
        })
        .collect()
}

#[test]
fn components_match_std() {
    for s in all_paths(6) {
        assert_eq!(components(&s), std_components(&s), "path {:?}", s);
    }
}

#[test]
fn file_names_and_extensions_match_std() {
    for s in all_paths(6) {
        let p = Path::new(&s);
        assert_eq!(
            file_name(&s).as_deref(),
            p.file_name().map(|n| n.to_str().unwrap()),
            "file name of {:?}",
            s
        );
        assert_eq!(
            extension(&s).as_deref(),
            p.extension().map(|n| n.to_str().unwrap()),
            "extension of {:?}",
            s
        );
    }
}

#[test]
fn equality_and_order_match_std() {
    let samples = all_paths(4);
    for a in &samples {
        for b in &samples {
            let (pa, pb) = (Path::new(a), Path::new(b));
            assert_eq!(paths_equal(a, b), pa == pb, "{:?} == {:?}", a, b);
            let ours = path_precedes(SortKey::WholePath, &a.to_string(), &b.to_string());
            assert_eq!(ours, pa.cmp(pb) != Ordering::Greater, "{:?} <= {:?}", a, b);
        }
    }
}

#[test]
fn file_name_order_matches_std() {
    let samples = ["/x/é.png", "/y/z.png", "/a/Z.png", "/b/ä.png", "/", "/c/z.png.bak", "/d/", "a"];
    for a in samples {
        for b in samples {
            let key = |p: &str| Path::new(p).file_name().unwrap_or_default().to_os_string();
            let expected = key(a) <= key(b);
            assert_eq!(
                path_precedes(SortKey::FileName, &a.to_string(), &b.to_string()),
                expected,
                "{:?} <= {:?}",
                a,
                b
            );
        }
    }
}
