use jsonl_compactor::container::Container;
use jsonl_compactor::locations::blob_file_loc;
use jsonl_compactor::locations::extract_pqt_locations;
use jsonl_compactor::locations::get_output_file_loc;
use jsonl_compactor::locations::join_path;
use jsonl_compactor::locations::shard_token;
use jsonl_compactor::locations::split_path;
use jsonl_compactor::locations::SourceLocation;

#[test]
fn locations_of_a_source_file() {
    let found = extract_pqt_locations(
        "/mnt/raid0/the-stack-v2/raw-hf-parquets/Rust/train-00012-of-01234.parquet",
    );
    assert_eq!(
        found,
        Some(SourceLocation {
            blob_dir: "/mnt/raid0/the-stack-v2/data/Rust/00012".to_string(),
            language: "Rust".to_string(),
            shard: "00012".to_string(),
        })
    );
}

#[test]
fn locations_agree_with_std_paths() {
    let text = "/base/the-stack-v2/raw-hf-parquets/C++/train-0000-of-0007.parquet";
    let pqt = std::path::PathBuf::from(text);
    let pl_dir = pqt.parent().unwrap();
    let stack_dir = pl_dir.parent().unwrap().parent().unwrap();
    let language = pl_dir.file_name().unwrap().to_str().unwrap();
    let number = pqt.file_name().unwrap().to_str().unwrap().split('-').nth(1).unwrap();
    let blob_dir = stack_dir.join("data").join(language).join(number);
    let found = extract_pqt_locations(text).unwrap();
    assert_eq!(found.blob_dir, blob_dir.to_str().unwrap());
    assert_eq!(found.language, language);
    assert_eq!(found.shard, number);
}

#[test]
fn locations_of_a_relative_path() {
    let found = extract_pqt_locations("stack/raw/Python/train-7-of-9.parquet").unwrap();
    assert_eq!(found.blob_dir, "stack/data/Python/7");
    assert_eq!(found.language, "Python");
    assert_eq!(found.shard, "7");
    let found = extract_pqt_locations("raw/Rust/train-0-of-1.parquet").unwrap();
    assert_eq!(found.blob_dir, "data/Rust/0");
}

#[test]
fn locations_under_the_root() {
    let found = extract_pqt_locations("/raw/Go/train-3.parquet").unwrap();
    assert_eq!(found.blob_dir, "/data/Go/3.parquet");
    assert_eq!(found.language, "Go");
    assert_eq!(found.shard, "3.parquet");
}

#[test]
fn locations_need_three_directories_a_language_and_a_shard() {
    assert_eq!(extract_pqt_locations(""), None);
    assert_eq!(extract_pqt_locations("/"), None);
    assert_eq!(extract_pqt_locations("train-0-of-1.parquet"), None);
    assert_eq!(extract_pqt_locations("Rust/train-0-of-1.parquet"), None);
    assert_eq!(extract_pqt_locations("/Rust/train-0-of-1.parquet"), None);
    assert_eq!(extract_pqt_locations("/s/raw/Rust/train.parquet"), None);
    assert_eq!(extract_pqt_locations("/s/raw/Rust/"), None);
    assert_eq!(extract_pqt_locations("/s/raw/../train-0-of-1.parquet"), None);
    assert_eq!(extract_pqt_locations("./train-0-of-1.parquet"), None);
}

#[test]
fn a_run_of_separators_counts_once() {
    let found = extract_pqt_locations("/s/a/b//f-1-x").unwrap();
    assert_eq!(found.blob_dir, "/s/data/b/1");
    assert_eq!(found.language, "b");
    assert_eq!(found.shard, "1");
    let found = extract_pqt_locations("/s/raw//train-0-of-1.parquet").unwrap();
    assert_eq!(found.blob_dir, "/data/raw/0");
    assert_eq!(found.language, "raw");
    assert_eq!(found.shard, "0");
    let found = extract_pqt_locations("//base///stack//raw////Rust///train-7-of-9.parquet//").unwrap();
    assert_eq!(found.blob_dir, "//base///stack/data/Rust/7");
    assert_eq!(found.language, "Rust");
    assert_eq!(found.shard, "7");
    let found = extract_pqt_locations("/base/./stack/raw/./Rust/./train-7-of-9.parquet/.").unwrap();
    assert_eq!(found.blob_dir, "/base/./stack/data/Rust/7");
    let found = extract_pqt_locations("./stack/raw/Rust/train-7-of-9.parquet").unwrap();
    assert_eq!(found.blob_dir, "./stack/data/Rust/7");
    let found = extract_pqt_locations("./raw/Rust/train-7-of-9.parquet").unwrap();
    assert_eq!(found.blob_dir, "./data/Rust/7");
}

#[test]
fn paths_split_into_directory_and_name() {
    assert_eq!(split_path("/a/b"), Some(("/a", "b")));
    assert_eq!(split_path("/a//b//"), Some(("/a", "b")));
    assert_eq!(split_path("/a/./b/."), Some(("/a", "b")));
    assert_eq!(split_path("/a"), Some(("/", "a")));
    assert_eq!(split_path("//a"), Some(("/", "a")));
    assert_eq!(split_path("a"), Some(("", "a")));
    assert_eq!(split_path("a/"), Some(("", "a")));
    assert_eq!(split_path("./a"), Some((".", "a")));
    assert_eq!(split_path("a/.."), Some(("a", "..")));
    assert_eq!(split_path("."), Some(("", ".")));
    assert_eq!(split_path(""), None);
    assert_eq!(split_path("/"), None);
    assert_eq!(split_path("//"), None);
    assert_eq!(split_path("/."), None);
}

fn std_split(text: &str) -> Option<(String, String)> {
    let path = std::path::Path::new(text);
    let parent = path.parent()?.to_str()?.to_string();
    let name = match path.components().next_back()? {
        std::path::Component::Normal(name) => name.to_str()?.to_string(),
        std::path::Component::CurDir => ".".to_string(),
        std::path::Component::ParentDir => "..".to_string(),
        _ => return None,
    };
    Some((parent, name))
}

fn texts(alphabet: &[char], max_len: usize) -> Vec<String> {
    let mut all = vec![String::new()];
    let mut last = vec![String::new()];
    for _ in 0..max_len {
        let mut next = Vec::new();
        for text in &last {
            for c in alphabet {
                let mut longer = text.clone();
                longer.push(*c);
                next.push(longer);
            }
        }
        all.extend(next.iter().cloned());
        last = next;
    }
    all
}

#[test]
fn every_short_path_splits_as_the_standard_library_splits_it() {
    for text in texts(&['/', '.', 'a', '-'], 7) {
        let ours = split_path(&text).map(|(dir, name)| (dir.to_string(), name.to_string()));
        assert_eq!(ours, std_split(&text), "{:?}", text);
    }
}

#[test]
fn every_short_path_is_read_as_the_standard_library_reads_it() {
    for text in texts(&['/', 'a', '-'], 9) {
        let ours = extract_pqt_locations(&text).map(|l| (l.blob_dir, l.language, l.shard));
        assert_eq!(ours, by_std(&text), "{:?}", text);
    }
    for text in texts(&['/', '.', 'a', '-'], 6) {
        for tail in ["/a-a", "a/a-a", "/a/a/a-a-", "/./a-a/", "/../a-a"] {
            let text = format!("{}{}", text, tail);
            let ours = extract_pqt_locations(&text).map(|l| (l.blob_dir, l.language, l.shard));
            assert_eq!(ours, by_std(&text), "{:?}", text);
        }
    }
}

fn by_std(text: &str) -> Option<(String, String, String)> {
    let pqt = std::path::PathBuf::from(text);
    let pl_dir = pqt.parent()?;
    let stack_dir = pl_dir.parent()?.parent()?;
    let language = pl_dir.file_name()?.to_str()?;
    let number = pqt.file_name()?.to_str()?.split('-').nth(1)?;
    let blob_dir = stack_dir.join("data").join(language).join(number);
    Some((blob_dir.to_str()?.to_string(), language.to_string(), number.to_string()))
}

#[test]
fn plain_paths_are_read_as_the_standard_library_reads_them() {
    let paths = [
        "/base/the-stack-v2/raw-hf-parquets/C++/train-0000-of-0007.parquet",
        "/mnt/raid0/the-stack-v2/raw-hf-parquets/Rust/train-00012-of-01234.parquet",
        "stack/raw/Python/train-7-of-9.parquet",
        "raw/Rust/train-0-of-1.parquet",
        "/raw/Go/train-3.parquet",
        "/a/b/c/d/e/f/x-y-z",
        "Rust/train-0-of-1.parquet",
        "/Rust/train-0-of-1.parquet",
        "train-0-of-1.parquet",
        "/train-0-of-1.parquet",
        "/s/raw/Rust/train.parquet",
        "/s/raw/Rust/-",
        "/s/a/b//f-1-x",
        "/s/raw//train-0-of-1.parquet",
        "//s//raw//Rust//train-0-of-1.parquet//",
        "/s/./raw/./Rust/./train-0-of-1.parquet/.",
        "./s/raw/Rust/train-0-of-1.parquet",
        "./raw/Rust/train-0-of-1.parquet",
        "/s/raw/../train-0-of-1.parquet",
        "/s/raw/Rust/..",
        "../../Rust/train-0-of-1.parquet",
        "",
        "/",
    ];
    for text in paths {
        let ours = extract_pqt_locations(text).map(|l| (l.blob_dir, l.language, l.shard));
        assert_eq!(ours, by_std(text), "{:?}", text);
    }
}

#[test]
fn shard_is_the_token_after_the_first_dash() {
    assert_eq!(shard_token("train-0001-of-1234.parquet"), Some("0001"));
    assert_eq!(shard_token("train-0001"), Some("0001"));
    assert_eq!(shard_token("train-"), Some(""));
    assert_eq!(shard_token("train--x"), Some(""));
    assert_eq!(shard_token("-a-b"), Some("a"));
    assert_eq!(shard_token("train"), None);
    assert_eq!(shard_token(""), None);
    for name in ["train-0001-of-1234.parquet", "a-b", "x-", "-", "a-b-c-d"] {
        assert_eq!(shard_token(name), name.split('-').nth(1));
    }
}

#[test]
fn join_path_puts_one_separator_between() {
    assert_eq!(join_path("/mnt/out", "a.gz"), "/mnt/out/a.gz");
    assert_eq!(join_path("/mnt/out/", "a.gz"), "/mnt/out/a.gz");
    assert_eq!(join_path("", "a.gz"), "a.gz");
    assert_eq!(join_path("/", "a.gz"), "/a.gz");
    for (dir, name) in [("/mnt/out", "a.gz"), ("/mnt/out/", "a.gz"), ("", "a"), ("rel", "b")] {
        let by_std = std::path::Path::new(dir).join(name);
        assert_eq!(join_path(dir, name), by_std.to_str().unwrap());
    }
}

#[test]
fn blob_file_is_the_id_with_gz() {
    assert_eq!(
        blob_file_loc("/s/data/Rust/0001", "0123abcd"),
        "/s/data/Rust/0001/0123abcd.gz"
    );
}

#[test]
fn output_file_of_a_chunk() {
    assert_eq!(
        get_output_file_loc("/mnt/raid0/jsonls/", "Rust", "00012", 3, 17, Container::Zstd),
        "/mnt/raid0/jsonls/Rust-00012-000003-of-000017.jsonl.zstd"
    );
    assert_eq!(
        get_output_file_loc("/mnt/raid0/jsonls", "Rust", "00012", 0, 1, Container::Gzip),
        "/mnt/raid0/jsonls/Rust-00012-000000-of-000001.jsonl.gz"
    );
    assert_eq!(
        get_output_file_loc("out", "C", "1", 1_234_567, 7_654_321, Container::Zstd),
        "out/C-1-1234567-of-7654321.jsonl.zstd"
    );
}

#[test]
fn output_file_agrees_with_format() {
    for (index, total) in [(0usize, 0usize), (5, 9), (999_999, 1_000_000), (12, 123_456_789)] {
        let expected = format!("{}-{}-{:06}-of-{:06}.jsonl.zstd", "Java", "0042", index, total);
        let expected = std::path::Path::new("/d").join(expected);
        assert_eq!(
            get_output_file_loc("/d", "Java", "0042", index, total, Container::Zstd),
            expected.to_str().unwrap()
        );
    }
}
