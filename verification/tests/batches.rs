use dl_res::batch::{prepare_batch, Batch};
use dl_res::resource::Resource;
use dl_res::schedule::Scheduler;
use std::path::PathBuf;

fn joined(dir: &str, name: &str) -> String {
    let mut path = PathBuf::from(dir);
    path.push(name);
    path.to_str().unwrap().to_string()
}

fn strings(items: &[&str]) -> Vec<String> {
    items.iter().map(|s| s.to_string()).collect()
}

fn pairs(batch: &Batch) -> Vec<(String, String)> {
    batch.resources.iter().map(|r| (r.url.clone(), r.fp.clone())).collect()
}

fn all_batches(urls: &[&str], n: usize) -> Vec<Batch> {
    let mut scheduler = Scheduler::new(strings(urls), n, "out".to_string());
    let mut batches = Vec::new();
    while let Some(batch) = scheduler.next_batch() {
        batches.push(batch);
    }
    assert!(scheduler.next_batch().is_none());
    batches
}

#[test]
fn resource_new_keeps_both_fields() {
    let resource = Resource::new("http://h/a".to_string(), "out/a".to_string());
    assert_eq!(resource.url, "http://h/a");
    assert_eq!(resource.fp, "out/a");
}

#[test]
fn prepare_batch_makes_one_resource_per_address() {
    let urls = strings(&["http://h/a", "http://h/b"]);
    let batch = prepare_batch(&urls, "out");
    assert_eq!(
        pairs(&batch),
        vec![
            ("http://h/a".to_string(), joined("out", "a")),
            ("http://h/b".to_string(), joined("out", "b")),
        ]
    );
    assert!(batch.excluded.is_empty());
}

#[test]
fn prepare_batch_leaves_out_what_names_no_file() {
    let urls = strings(&["http://h/a", "http://h/", "", "http://h/b"]);
    let batch = prepare_batch(&urls, "out");
    assert_eq!(
        pairs(&batch),
        vec![
            ("http://h/a".to_string(), joined("out", "a")),
            ("http://h/b".to_string(), joined("out", "b")),
        ]
    );
    assert_eq!(batch.excluded, vec!["http://h/", ""]);
}

#[test]
fn prepare_batch_of_nothing_is_empty() {
    let batch = prepare_batch(&[], "out");
    assert!(batch.resources.is_empty());
    assert!(batch.excluded.is_empty());
}

#[test]
fn three_addresses_by_two_make_two_batches() {
    let batches = all_batches(&["http://h/a", "http://h/b", "http://h/c"], 2);
    assert_eq!(batches.len(), 2);
    assert_eq!(
        pairs(&batches[0]),
        vec![
            ("http://h/a".to_string(), joined("out", "a")),
            ("http://h/b".to_string(), joined("out", "b")),
        ]
    );
    assert_eq!(pairs(&batches[1]), vec![("http://h/c".to_string(), joined("out", "c"))]);
}

#[test]
fn batch_size_one_is_serial() {
    let batches = all_batches(&["http://h/a", "http://h/b", "http://h/c"], 1);
    assert_eq!(batches.len(), 3);
    for (batch, name) in batches.iter().zip(["a", "b", "c"]) {
        assert_eq!(pairs(batch), vec![(format!("http://h/{}", name), joined("out", name))]);
    }
}

#[test]
fn batch_size_of_the_list_or_more_is_one_batch() {
    assert_eq!(all_batches(&["http://h/a", "http://h/b", "http://h/c"], 3).len(), 1);
    let batches = all_batches(&["http://h/a", "http://h/b", "http://h/c"], 100);
    assert_eq!(batches.len(), 1);
    assert_eq!(batches[0].resources.len(), 3);
    assert_eq!(all_batches(&["http://h/a"], usize::MAX).len(), 1);
}

#[test]
fn batch_sizes_are_full_but_for_the_last() {
    let urls: Vec<String> = (0..10).map(|i| format!("http://h/{}", i)).collect();
    let refs: Vec<&str> = urls.iter().map(|s| s.as_str()).collect();
    let sizes: Vec<usize> = all_batches(&refs, 4).iter().map(|b| b.resources.len()).collect();
    assert_eq!(sizes, vec![4, 4, 2]);
    let sizes: Vec<usize> = all_batches(&refs, 5).iter().map(|b| b.resources.len()).collect();
    assert_eq!(sizes, vec![5, 5]);
}

#[test]
fn batches_keep_the_order_of_the_list() {
    let urls: Vec<String> = (0..7).map(|i| format!("http://h/{}", i)).collect();
    let refs: Vec<&str> = urls.iter().map(|s| s.as_str()).collect();
    let mut seen = Vec::new();
    for batch in all_batches(&refs, 3) {
        for resource in batch.resources {
            seen.push(resource.url);
        }
    }
    assert_eq!(seen, urls);
}

#[test]
fn an_excluded_address_still_takes_its_place_in_a_group() {
    let batches = all_batches(&["http://h/a", "http://h/", "http://h/b"], 2);
    assert_eq!(batches.len(), 2);
    assert_eq!(batches[0].resources.len(), 1);
    assert_eq!(batches[0].excluded, vec!["http://h/"]);
    assert_eq!(batches[1].resources.len(), 1);
    assert!(batches[1].excluded.is_empty());
}

#[test]
fn a_group_of_excluded_addresses_is_a_batch_without_downloads() {
    let batches = all_batches(&["http://h/", "", "http://h/a"], 2);
    assert_eq!(batches.len(), 2);
    assert!(batches[0].resources.is_empty());
    assert_eq!(batches[0].excluded, vec!["http://h/", ""]);
    assert_eq!(batches[1].resources.len(), 1);
}

#[test]
fn no_addresses_no_batches() {
    assert!(all_batches(&[], 3).is_empty());
}

#[test]
fn total_is_the_length_of_the_list() {
    let scheduler = Scheduler::new(strings(&["a", "b/", "c"]), 2, "out".to_string());
    assert_eq!(scheduler.total(), 3);
    let scheduler = Scheduler::new(Vec::new(), 1, "out".to_string());
    assert_eq!(scheduler.total(), 0);
}

#[test]
fn total_stays_while_batches_are_handed_out() {
    let mut scheduler = Scheduler::new(strings(&["a", "b", "c"]), 2, "out".to_string());
    scheduler.next_batch();
    assert_eq!(scheduler.total(), 3);
    scheduler.next_batch();
    scheduler.next_batch();
    assert_eq!(scheduler.total(), 3);
}

#[test]
fn attempted_and_excluded_add_up_to_the_list() {
    let urls = ["http://h/a", "http://h/", "x", "", "http://h/b/", "http://h/c"];
    let mut n = 1;
    while n <= 8 {
        let batches = all_batches(&urls, n);
        let attempted: usize = batches.iter().map(|b| b.resources.len()).sum();
        let excluded: usize = batches.iter().map(|b| b.excluded.len()).sum();
        assert_eq!(attempted, 3);
        assert_eq!(excluded, 3);
        n += 1;
    }
}

#[test]
fn every_destination_lies_in_the_output_directory() {
    let urls = ["http://h/a", "http://h/b?x=/c", "http://other/d/e", "f"];
    for batch in all_batches(&urls, 3) {
        for resource in batch.resources {
            let path = PathBuf::from(&resource.fp);
            assert_eq!(path.parent(), Some(PathBuf::from("out").as_path()));
        }
    }
}
