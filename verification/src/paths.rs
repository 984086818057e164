//! The names of SMA files.

use vstd::prelude::*;
use vstd::string::{StrSliceExecFns, StringExecFns};

verus! {

/// The folder in which SMA files are written.
pub const SMA_BASE_FOLDER: &'static str = "/Users/u.oezdemir/Desktop/thesis/data";

/// `text` with every occurrence of `from` replaced by `to`, looking for them
/// from the front and never inside one that was found.
pub open spec fn replaced(text: Seq<char>, from: Seq<char>, to: Seq<char>) -> Seq<char>
    decreases text.len(),
{
    if from.len() == 0 || text.len() < from.len() {
        text
    } else if text.take(from.len() as int) == from {
        to + replaced(text.skip(from.len() as int), from, to)
    } else {
        seq![text[0]] + replaced(text.skip(1), from, to)
    }
}

/// Whether `part` occurs in `text`.
pub open spec fn occurs(text: Seq<char>, part: Seq<char>) -> bool {
    exists|i: int|
        0 <= i <= text.len() - part.len() && #[trigger] text.subrange(i, i + part.len()) == part
}

/// The characters of a string.
fn characters(text: &str) -> (r: Vec<char>)
    ensures
        r@ == text@,
{
    let mut r: Vec<char> = Vec::new();
    for c in it: text.chars()
        invariant
            r@ == it.seq().take(it.index() as int),
    {
        r.push(c);
    }
    r
}

/// Whether `part` stands in `text` at position `i`.
fn stands_at(text: &Vec<char>, part: &Vec<char>, i: usize) -> (r: bool)
    requires
        i + part.len() <= text.len(),
    ensures
        r == (text@.subrange(i as int, i + part.len()) == part@),
{
    let mut j: usize = 0;
    while j < part.len()
        invariant
            i + part.len() <= text.len(),
            j <= part.len(),
            forall|l: int| 0 <= l < j ==> text@[i + l] == part@[l],
        decreases part.len() - j,
    {
        if text[i + j] != part[j] {
            assert(text@.subrange(i as int, i + part.len())[j as int] != part@[j as int]);
            return false;
        }
        j = j + 1;
    }
    assert(text@.subrange(i as int, i + part.len()) =~= part@);
    true
}

/// Replaces every occurrence of `from` in `text` by `to`.
fn replace_all(text: &str, from: &str, to: &str) -> (r: String)
    requires
        from@.len() > 0,
    ensures
        r@ == replaced(text@, from@, to@),
{
    let chars: Vec<char> = characters(text);
    let part: Vec<char> = characters(from);
    let n: usize = chars.len();
    let mut out: String = String::new();
    let mut copied: usize = 0;
    let mut i: usize = 0;
    assert(text@.skip(0) =~= text@);
    assert(out@ + text@.subrange(0, 0) + replaced(text@, from@, to@) =~= replaced(
        text@,
        from@,
        to@,
    ));
    while n - i >= part.len()
        invariant
            n == chars.len(),
            chars@ == text@,
            part@ == from@,
            part.len() > 0,
            copied <= i <= n,
            replaced(text@, from@, to@) == out@ + text@.subrange(copied as int, i as int)
                + replaced(text@.skip(i as int), from@, to@),
        decreases n - i,
    {
        let ghost rest = text@.skip(i as int);
        let ghost m = part.len() as int;
        assert(rest.take(m) =~= text@.subrange(i as int, i + m));
        if stands_at(&chars, &part, i) {
            assert(rest.skip(m) =~= text@.skip(i + m));
            out.append(text.substring_char(copied, i));
            out.append(to);
            i = i + part.len();
            copied = i;
            assert(out@ + text@.subrange(copied as int, i as int) =~= out@);
            assert(replaced(text@, from@, to@) =~= out@ + replaced(
                text@.skip(i as int),
                from@,
                to@,
            ));
        } else {
            assert(rest.skip(1) =~= text@.skip(i + 1));
            assert(text@.subrange(copied as int, i as int) + seq![rest[0]] =~= text@.subrange(
                copied as int,
                i + 1,
            ));
            assert(replaced(text@, from@, to@) =~= out@ + text@.subrange(copied as int, i + 1)
                + replaced(text@.skip(i + 1), from@, to@));
            i = i + 1;
        }
    }
    assert(text@.subrange(copied as int, i as int) + text@.skip(i as int) =~= text@.subrange(
        copied as int,
        n as int,
    ));
    let ghost before = out@;
    out.append(text.substring_char(copied, n));
    assert(replaced(text@, from@, to@) =~= before + text@.subrange(copied as int, n as int));
    out
}

/// The name of the SMA file that belongs to a Parquet file.
pub fn sma_file_name(file_path: &str) -> (r: String)
    ensures
        r@ == replaced(file_path@, ".parquet"@, ".sma"@),
{
    proof {
        reveal_strlit(".parquet");
    }
    replace_all(file_path, ".parquet", ".sma")
}

/// The path of `file_name` in the base folder.
pub open spec fn base_path(file_name: Seq<char>) -> Seq<char> {
    SMA_BASE_FOLDER@ + "/"@ + file_name
}

/// The path of a file in the base folder.
pub fn in_base_folder(file_name: &str) -> (r: String)
    ensures
        r@ == base_path(file_name@),
{
    let mut path: String = SMA_BASE_FOLDER.to_owned();
    path.append("/");
    path.append(file_name);
    path
}

/// A text in which `from` does not occur is left as it is.
pub proof fn law_nothing_to_replace(text: Seq<char>, from: Seq<char>, to: Seq<char>)
    requires
        !occurs(text, from),
    ensures
        replaced(text, from, to) == text,
    decreases text.len(),
{
    let m = from.len() as int;
    if m > 0 && text.len() >= m {
        assert(text.take(m) =~= text.subrange(0, 0 + m));
        let rest = text.skip(1);
        assert forall|i: int| 0 <= i <= rest.len() - m implies #[trigger] rest.subrange(i, i + m)
            != from by {
            assert(rest.subrange(i, i + m) =~= text.subrange(i + 1, i + 1 + m));
        }
        law_nothing_to_replace(rest, from, to);
        assert(replaced(text, from, to) =~= text);
    }
}

/// The SMA file of `stem.parquet` is `stem.sma`.
pub proof fn law_extension_is_exchanged(stem: Seq<char>)
    requires
        !occurs(stem, ".parquet"@),
    ensures
        replaced(stem + ".parquet"@, ".parquet"@, ".sma"@) == stem + ".sma"@,
    decreases stem.len(),
{
    reveal_strlit(".parquet");
    let from = ".parquet"@;
    let to = ".sma"@;
    let m = from.len() as int;
    let text = stem + from;
    if stem.len() == 0 {
        assert(text.take(m) =~= from);
        assert(text.skip(m) =~= Seq::<char>::empty());
        assert(replaced(text.skip(m), from, to) == text.skip(m));
        assert(replaced(text, from, to) =~= stem + to);
    } else {
        if text.take(m) == from {
            if stem.len() >= m {
                assert(stem.subrange(0, 0 + m) =~= text.take(m));
            } else {
                assert(text.take(m)[stem.len() as int] == from[0]);
            }
        }
        let rest = stem.skip(1);
        assert forall|i: int| 0 <= i <= rest.len() - m implies #[trigger] rest.subrange(i, i + m)
            != from by {
            assert(rest.subrange(i, i + m) =~= stem.subrange(i + 1, i + 1 + m));
        }
        assert(text.skip(1) =~= rest + from);
        law_extension_is_exchanged(rest);
        assert(replaced(text, from, to) =~= stem + to);
    }
}

/// Up to the first occurrence of `from`, at position `i`, the text stays; there
/// stands `to`; and behind it the rest of the text is treated in the same way.
pub proof fn law_first_is_replaced(text: Seq<char>, from: Seq<char>, to: Seq<char>, i: int)
    requires
        from.len() > 0,
        0 <= i <= text.len() - from.len(),
        text.subrange(i, i + from.len()) == from,
        forall|j: int| 0 <= j < i ==> #[trigger] text.subrange(j, j + from.len()) != from,
    ensures
        occurs(text, from),
        replaced(text, from, to) == text.take(i) + to + replaced(
            text.skip(i + from.len()),
            from,
            to,
        ),
    decreases i,
{
    let m = from.len() as int;
    assert(text.take(m) =~= text.subrange(0, 0 + m));
    if i == 0 {
        assert(text.skip(m) =~= text.skip(i + m));
        assert(text.take(0) + to =~= to);
    } else {
        let rest = text.skip(1);
        assert(rest.subrange(i - 1, i - 1 + m) =~= text.subrange(i, i + m));
        assert forall|j: int| 0 <= j < i - 1 implies #[trigger] rest.subrange(j, j + m)
            != from by {
            assert(rest.subrange(j, j + m) =~= text.subrange(j + 1, j + 1 + m));
        }
        law_first_is_replaced(rest, from, to, i - 1);
        assert(rest.skip(i - 1 + m) =~= text.skip(i + m));
        assert(seq![text[0]] + (rest.take(i - 1) + to + replaced(text.skip(i + m), from, to))
            =~= text.take(i) + to + replaced(text.skip(i + m), from, to));
    }
}

/// A text in which `from` stands nowhere stays as it is.
pub proof fn law_nothing_is_replaced(text: Seq<char>, from: Seq<char>, to: Seq<char>)
    requires
        forall|i: int|
            0 <= i <= text.len() - from.len() ==> #[trigger] text.subrange(i, i + from.len())
                != from,
    ensures
        !occurs(text, from),
        replaced(text, from, to) == text,
{
    law_nothing_to_replace(text, from, to);
}

/// The path of a file in the base folder is the folder, a slash and the name.
pub proof fn law_base_path(file_name: Seq<char>)
    ensures
        SMA_BASE_FOLDER@ == "/Users/u.oezdemir/Desktop/thesis/data"@,
        ({
            let path = base_path(file_name);
            let n = SMA_BASE_FOLDER@.len() as int;
            &&& path.len() == n + 1 + file_name.len()
            &&& path.take(n) == SMA_BASE_FOLDER@
            &&& path[n] == '/'
            &&& path.skip(n + 1) == file_name
        }),
{
    reveal_strlit("/");
    let n = SMA_BASE_FOLDER@.len() as int;
    assert(base_path(file_name).take(n) =~= SMA_BASE_FOLDER@);
    assert(base_path(file_name).skip(n + 1) =~= file_name);
}

} // verus!
