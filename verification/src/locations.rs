//! Where a source file's blobs lie and what its output artifacts are called.
//!
//! A path is text whose names are separated by `/`. A run of `/` separates like
//! one, a name `.` after a `/` names nothing, and what trails the last name does
//! not count. A source file lies at `<stack>/<any>/<language>/<name>-<shard>-...`;
//! its blobs lie under `<stack>/data/<language>/<shard>`.

use vstd::prelude::*;
use vstd::string::StringExecFns;
use vstd::string::StrSliceExecFns;
use crate::container::Container;
use crate::text::find_char;
use crate::text::push_zero_padded6;
use crate::text::rfind_char;
use crate::text::spec_find;
use crate::text::spec_rfind;
use crate::text::str_eq;
use crate::text::zero_padded;
use crate::text::lemma_find_first;
use crate::text::lemma_rfind_last;

verus! {

/// What a source file's path says: the directory of its blobs, its language,
/// and its shard.
#[derive(Debug, Clone, PartialEq, Eq)]
pub struct SourceLocation {
    pub blob_dir: String,
    pub language: String,
    pub shard: String,
}

/// A path without what trails its last name: the `/` at its end and the `.`
/// that follow a `/` are dropped, one after another. The root `/` stays.
pub open spec fn trim_end(path: Seq<char>) -> Seq<char>
    decreases path.len(),
{
    if path.len() >= 2 && (path.last() == '/' || (path.last() == '.' && path[path.len() - 2]
        == '/')) {
        trim_end(path.drop_last())
    } else {
        path
    }
}

/// Splits a path into the directory and the last name in it. The name is what
/// follows the last `/` of the trimmed path. The directory is what stands before
/// the name, trimmed in turn: the root `/` where only that is left, and empty
/// where the path holds no `/`. The empty path and the root have no directory.
pub open spec fn split_last(path: Seq<char>) -> Option<(Seq<char>, Seq<char>)> {
    let trimmed = trim_end(path);
    if trimmed.len() == 0 || trimmed == seq!['/'] {
        None
    } else {
        match spec_rfind(trimmed, '/') {
            Some(i) => Some((trim_end(trimmed.take(i + 1)), trimmed.skip(i + 1))),
            None => Some((Seq::empty(), trimmed)),
        }
    }
}

/// Whether a name names a directory of its own: `.` and `..` do not.
pub open spec fn is_plain_name(name: Seq<char>) -> bool {
    name != seq!['.'] && name != seq!['.', '.']
}

/// The shard of a file name: what stands between its first `-` and the next
/// one, or the end of the name where no other `-` follows.
pub open spec fn shard_of(file_name: Seq<char>) -> Option<Seq<char>> {
    match spec_find(file_name, '-') {
        None => None,
        Some(i) => {
            let rest = file_name.skip(i + 1);
            match spec_find(rest, '-') {
                Some(j) => Some(rest.take(j)),
                None => Some(rest),
            }
        },
    }
}

/// A name put under a directory.
pub open spec fn path_join(dir: Seq<char>, name: Seq<char>) -> Seq<char> {
    if dir.len() == 0 {
        name
    } else if dir.last() == '/' {
        dir + name
    } else {
        dir + seq!['/'] + name
    }
}

/// The blob directory, language and shard of a source file's path. `None` where
/// the path has no three directories above the file, the directory of the file
/// has no plain name, or the file name holds no `-`.
pub open spec fn locations(path: Seq<char>) -> Option<(Seq<char>, Seq<char>, Seq<char>)> {
    match split_last(path) {
        None => None,
        Some((language_dir, file_name)) => match split_last(language_dir) {
            None => None,
            Some((parent, language)) => match split_last(parent) {
                None => None,
                Some((stack, _)) => match shard_of(file_name) {
                    None => None,
                    Some(shard) => if !is_plain_name(language) {
                        None
                    } else {
                        Some(
                            (
                                path_join(
                                    path_join(path_join(stack, "data"@), language),
                                    shard,
                                ),
                                language,
                                shard,
                            ),
                        )
                    },
                },
            },
        },
    }
}

fn trimmed_len(path: &str, upto: usize) -> (end: usize)
    requires
        upto <= path@.len(),
    ensures
        end <= upto,
        path@.take(end as int) == trim_end(path@.take(upto as int)),
{
    let mut end: usize = upto;
    let mut done: bool = false;
    while end >= 2 && !done
        invariant
            end <= upto <= path@.len(),
            trim_end(path@.take(end as int)) == trim_end(path@.take(upto as int)),
            done ==> trim_end(path@.take(end as int)) == path@.take(end as int),
        decreases end + if done { 0int } else { 1int },
    {
        let ghost whole = path@.take(end as int);
        assert(whole.drop_last() =~= path@.take(end - 1));
        assert(whole.last() == path@[end - 1]);
        assert(whole[whole.len() - 2] == path@[end - 2]);
        let last = path.get_char(end - 1);
        if last == '/' || (last == '.' && path.get_char(end - 2) == '/') {
            end -= 1;
        } else {
            done = true;
        }
    }
    end
}

/// Splits a path into the directory and the last name in it.
pub fn split_path(path: &str) -> (parts: Option<(&str, &str)>)
    ensures
        match parts {
            Some((dir, name)) => split_last(path@) == Some((dir@, name@)),
            None => split_last(path@) is None,
        },
{
    let n = path.unicode_len();
    assert(path@.take(n as int) =~= path@);
    let end = trimmed_len(path, n);
    let trimmed = path.substring_char(0, end);
    assert(trimmed@ =~= trim_end(path@));
    if end == 0 {
        return None;
    }
    match rfind_char(trimmed, '/') {
        None => {
            proof {
                lemma_rfind_last(trimmed@, '/');
            }
            let dir = trimmed.substring_char(0, 0);
            assert(dir@ =~= Seq::<char>::empty());
            assert(trimmed@ != seq!['/']) by {
                if trimmed@ == seq!['/'] {
                    assert(trimmed@[0] == '/');
                }
            }
            Some((dir, trimmed))
        },
        Some(i) => {
            proof {
                lemma_rfind_last(trimmed@, '/');
            }
            if end == 1 {
                assert(trimmed@ =~= seq!['/']);
                return None;
            }
            assert(trimmed@ != seq!['/']);
            let name = trimmed.substring_char(i + 1, end);
            assert(name@ =~= trimmed@.skip(i + 1));
            let dir_end = trimmed_len(trimmed, i + 1);
            let dir = trimmed.substring_char(0, dir_end);
            assert(dir@ =~= trimmed@.take(dir_end as int));
            Some((dir, name))
        },
    }
}

/// Finds the shard in a source file's name.
pub fn shard_token(file_name: &str) -> (shard: Option<&str>)
    ensures
        match shard {
            Some(token) => shard_of(file_name@) == Some(token@),
            None => shard_of(file_name@) is None,
        },
{
    match find_char(file_name, '-') {
        None => None,
        Some(i) => {
            proof {
                lemma_find_first(file_name@, '-');
            }
            let n = file_name.unicode_len();
            let rest = file_name.substring_char(i + 1, n);
            assert(rest@ =~= file_name@.skip(i + 1));
            match find_char(rest, '-') {
                None => Some(rest),
                Some(j) => {
                    proof {
                        lemma_find_first(rest@, '-');
                    }
                    let token = rest.substring_char(0, j);
                    assert(token@ =~= rest@.take(j as int));
                    Some(token)
                },
            }
        },
    }
}

/// Puts a name under a directory.
pub fn join_path(dir: &str, name: &str) -> (path: String)
    ensures
        path@ == path_join(dir@, name@),
{
    let n = dir.unicode_len();
    if n == 0 {
        assert(dir@ =~= Seq::<char>::empty());
        return String::from_str(name);
    }
    let mut path = String::from_str(dir);
    if dir.get_char(n - 1) != '/' {
        proof {
            reveal_strlit("/");
        }
        path.append("/");
        assert(path@ =~= dir@ + seq!['/']);
    }
    path.append(name);
    path
}

/// Derives the blob directory, the language and the shard from the path of a
/// source file.
pub fn extract_pqt_locations(pqt: &str) -> (location: Option<SourceLocation>)
    ensures
        match location {
            Some(found) => locations(pqt@) == Some(
                (found.blob_dir@, found.language@, found.shard@),
            ),
            None => locations(pqt@) is None,
        },
{
    let (language_dir, file_name) = match split_path(pqt) {
        Some(parts) => parts,
        None => {
            return None;
        },
    };
    let (parent, language) = match split_path(language_dir) {
        Some(parts) => parts,
        None => {
            return None;
        },
    };
    let (stack, _) = match split_path(parent) {
        Some(parts) => parts,
        None => {
            return None;
        },
    };
    let shard = match shard_token(file_name) {
        Some(token) => token,
        None => {
            return None;
        },
    };
    proof {
        reveal_strlit(".");
        reveal_strlit("..");
    }
    assert("."@ =~= seq!['.']);
    assert(".."@ =~= seq!['.', '.']);
    if str_eq(language, ".") || str_eq(language, "..") {
        return None;
    }
    let data_dir = join_path(stack, "data");
    let language_blobs = join_path(data_dir.as_str(), language);
    let blob_dir = join_path(language_blobs.as_str(), shard);
    Some(
        SourceLocation {
            blob_dir,
            language: String::from_str(language),
            shard: String::from_str(shard),
        },
    )
}

/// The file of a blob: its id and `.gz`, under the blob directory.
pub open spec fn blob_file(blob_dir: Seq<char>, blob_id: Seq<char>) -> Seq<char> {
    path_join(blob_dir, blob_id + ".gz"@)
}

/// The path of the file that holds a blob.
pub fn blob_file_loc(blob_dir: &str, blob_id: &str) -> (path: String)
    ensures
        path@ == blob_file(blob_dir@, blob_id@),
{
    let mut name = String::from_str(blob_id);
    name.append(".gz");
    join_path(blob_dir, name.as_str())
}

/// The ending of an artifact's file name.
pub open spec fn extension(container: Container) -> Seq<char> {
    match container {
        Container::Gzip => "gz"@,
        Container::Zstd => "zstd"@,
    }
}

/// The name of a chunk's artifact: language, shard, the chunk's number and the
/// number of chunks, each of the two in at least six digits.
pub open spec fn output_file_name(
    language: Seq<char>,
    shard: Seq<char>,
    chunk: nat,
    chunks: nat,
    container: Container,
) -> Seq<char> {
    language + "-"@ + shard + "-"@ + zero_padded(chunk, 6) + "-of-"@ + zero_padded(chunks, 6)
        + ".jsonl."@ + extension(container)
}

/// The path of a chunk's artifact under the output directory.
pub fn get_output_file_loc(
    local_jsonl_dir: &str,
    language: &str,
    parquet_num: &str,
    jsonl_num: usize,
    total_num: usize,
    container: Container,
) -> (path: String)
    ensures
        path@ == path_join(
            local_jsonl_dir@,
            output_file_name(
                language@,
                parquet_num@,
                jsonl_num as nat,
                total_num as nat,
                container,
            ),
        ),
{
    let mut name = String::from_str(language);
    name.append("-");
    name.append(parquet_num);
    name.append("-");
    push_zero_padded6(&mut name, jsonl_num as u64);
    name.append("-of-");
    push_zero_padded6(&mut name, total_num as u64);
    name.append(".jsonl.");
    match container {
        Container::Gzip => name.append("gz"),
        Container::Zstd => name.append("zstd"),
    }
    join_path(local_jsonl_dir, name.as_str())
}

} // verus!
