//! The file that lists the API keys.

use crate::text::{chars_of, string_of, trim};
use vstd::prelude::*;

verus! {

/// The name of the file that lists the keys, in the home directory.
pub const KEYS_FILE: &'static str = "Tinypng API密钥.txt";

/// The lines of a text.
pub open spec fn lines_of(text: Seq<char>) -> Seq<Seq<char>>
    decreases text.len(),
{
    if text.contains('\n') {
        let i = text.index_of_first('\n')->0;
        if 0 <= i < text.len() {
            seq![text.take(i)] + lines_of(text.skip(i + 1))
        } else {
            seq![text]
        }
    } else {
        seq![text]
    }
}

/// A trimmed line that is a key: neither blank nor a comment.
pub open spec fn is_key(line: Seq<char>) -> bool {
    line.len() > 0 && line[0] != '#'
}

/// The keys that a text lists, one on each line.
pub open spec fn listed_keys(text: Seq<char>) -> Seq<Seq<char>> {
    lines_of(text).map_values(|l: Seq<char>| crate::text::trimmed(l)).filter(
        |l: Seq<char>| is_key(l),
    )
}

/// A line break after a line without one ends the first line of the text.
proof fn lemma_first_line(line: Seq<char>, rest: Seq<char>)
    requires
        !line.contains('\n'),
    ensures
        lines_of(line + seq!['\n'] + rest) == seq![line] + lines_of(rest),
{
    let text = line + seq!['\n'] + rest;
    let n = line.len() as int;
    assert(text[n] == '\n');
    assert(text.contains('\n'));
    text.index_of_first_ensures('\n');
    let i = text.index_of_first('\n')->0;
    assert(i == n) by {
        if i < n {
            assert(line[i] == text[i]);
        }
    }
    assert(text.take(i) =~= line);
    assert(text.skip(i + 1) =~= rest);
}

/// The first line's key, if it is one, comes before those of the other lines.
proof fn lemma_first_key(line: Seq<char>, rest: Seq<char>)
    requires
        !line.contains('\n'),
    ensures
        listed_keys(line + seq!['\n'] + rest) == (if is_key(crate::text::trimmed(line)) {
            seq![crate::text::trimmed(line)]
        } else {
            seq![]
        }) + listed_keys(rest),
{
    let trim_line = |l: Seq<char>| crate::text::trimmed(l);
    let pick = |l: Seq<char>| is_key(l);
    let head = seq![crate::text::trimmed(line)];
    let tail = lines_of(rest).map_values(trim_line);
    lemma_first_line(line, rest);
    assert((seq![line] + lines_of(rest)).map_values(trim_line) =~= head + tail);
    Seq::filter_distributes_over_add(head, tail, pick);
    lemma_filter_one(crate::text::trimmed(line));
}

proof fn lemma_filter_one(line: Seq<char>)
    ensures
        seq![line].filter(|l: Seq<char>| is_key(l)) == if is_key(line) {
            seq![line]
        } else {
            seq![]
        },
{
    reveal_with_fuel(Seq::filter, 2);
    assert(seq![line].drop_last() =~= Seq::<Seq<char>>::empty());
}

/// A text without a line break lists the key of its one line.
proof fn lemma_only_key(line: Seq<char>)
    requires
        !line.contains('\n'),
    ensures
        listed_keys(line) == if is_key(crate::text::trimmed(line)) {
            seq![crate::text::trimmed(line)]
        } else {
            seq![]
        },
{
    let trim_line = |l: Seq<char>| crate::text::trimmed(l);
    assert(lines_of(line) =~= seq![line]);
    assert(seq![line].map_values(trim_line) =~= seq![crate::text::trimmed(line)]);
    lemma_filter_one(crate::text::trimmed(line));
}

fn push_key(found: &mut Vec<String>, line: &Vec<char>)
    ensures
        final(found)@.map_values(|k: String| k@) == old(found)@.map_values(|k: String| k@) + (
        if is_key(crate::text::trimmed(line@)) {
            seq![crate::text::trimmed(line@)]
        } else {
            seq![]
        }),
{
    let ghost before = found@.map_values(|k: String| k@);
    let line = trim(line);
    if line.len() > 0 && line[0] != '#' {
        let key = string_of(&line);
        found.push(key);
    }
    assert(found@.map_values(|k: String| k@) =~= before + (if is_key(line@) {
        seq![line@]
    } else {
        seq![]
    }));
}

/// The keys in the text of the key file: one on each line, without the whitespace around it;
/// blank lines and lines that start with `#` do not count.
pub fn keys(content: &str) -> (found: Vec<String>)
    ensures
        found@.map_values(|k: String| k@) == listed_keys(content@),
{
    let text = chars_of(content);
    let mut found: Vec<String> = Vec::new();
    let mut line: Vec<char> = Vec::new();
    let mut i: usize = 0;
    assert(line@ + text@.skip(0) =~= content@);
    assert(found@.map_values(|k: String| k@) + listed_keys(content@) =~= listed_keys(content@));
    while i < text.len()
        invariant
            i <= text.len(),
            text@ == content@,
            !line@.contains('\n'),
            listed_keys(content@) == found@.map_values(|k: String| k@) + listed_keys(
                line@ + text@.skip(i as int),
            ),
        decreases text.len() - i,
    {
        let c = text[i];
        let ghost rest = text@.skip(i + 1);
        let ghost before = found@.map_values(|k: String| k@);
        let ghost old_line = line@;
        assert(text@.skip(i as int) =~= seq![c] + rest);
        if c == '\n' {
            assert(line@ + text@.skip(i as int) =~= line@ + seq!['\n'] + rest);
            proof {
                lemma_first_key(line@, rest);
            }
            push_key(&mut found, &line);
            line = Vec::new();
            assert(line@ + rest =~= rest);
            assert(found@.map_values(|k: String| k@) + listed_keys(rest) =~= before + listed_keys(
                old_line + text@.skip(i as int),
            ));
        } else {
            line.push(c);
            assert(line@ + rest =~= old_line + text@.skip(i as int));
            assert(!line@.contains('\n')) by {
                if line@.contains('\n') {
                    let j = choose|j: int| 0 <= j < line@.len() && line@[j] == '\n';
                    assert(old_line[j] == '\n');
                }
            }
        }
        i = i + 1;
    }
    assert(line@ + text@.skip(i as int) =~= line@);
    proof {
        lemma_only_key(line@);
    }
    push_key(&mut found, &line);
    found
}

/// The keys of two texts that follow each other on separate lines are those of the first and then
/// those of the second.
pub proof fn law_keys_of_joined_texts(a: Seq<char>, b: Seq<char>)
    ensures
        listed_keys(a + seq!['\n'] + b) == listed_keys(a) + listed_keys(b),
    decreases a.len(),
{
    if a.contains('\n') {
        a.index_of_first_ensures('\n');
        let i = a.index_of_first('\n')->0;
        let line = a.take(i);
        let rest = a.skip(i + 1);
        assert(!line.contains('\n')) by {
            if line.contains('\n') {
                let j = choose|j: int| 0 <= j < line.len() && line[j] == '\n';
                assert(a[j] == '\n');
            }
        }
        assert(a =~= line + seq!['\n'] + rest);
        assert(a + seq!['\n'] + b =~= line + seq!['\n'] + (rest + seq!['\n'] + b));
        lemma_first_key(line, rest);
        lemma_first_key(line, rest + seq!['\n'] + b);
        law_keys_of_joined_texts(rest, b);
        assert(listed_keys(a + seq!['\n'] + b) =~= listed_keys(a) + listed_keys(b));
    } else {
        lemma_first_key(a, b);
        lemma_only_key(a);
    }
}

/// A key that a file can list: not empty, no comment, no whitespace at its ends, on one line.
pub open spec fn is_listable(key: Seq<char>) -> bool {
    is_key(key) && crate::text::trimmed(key) == key && !key.contains('\n')
}

/// The file of the keys goes by this name.
pub proof fn law_name_of_the_key_file()
    ensures
        KEYS_FILE@ == "Tinypng API密钥.txt"@,
{
}

/// The text that lists each key on a line of its own.
pub open spec fn key_file(keys: Seq<Seq<char>>) -> Seq<char>
    decreases keys.len(),
{
    if keys.len() == 0 {
        seq![]
    } else {
        keys.first() + seq!['\n'] + key_file(keys.drop_first())
    }
}

/// Reading a file that lists keys gives back those keys, whatever they are, as long as each is not
/// empty, does not start with `#`, has no whitespace at its ends and no line break in it.
pub proof fn law_keys_read_back(keys: Seq<Seq<char>>)
    requires
        forall|i: int|
            0 <= i < keys.len() ==> {
                &&& (#[trigger] keys[i]).len() > 0
                &&& keys[i][0] != '#'
                &&& !crate::text::is_space(keys[i].first())
                &&& !crate::text::is_space(keys[i].last())
                &&& !keys[i].contains('\n')
            },
    ensures
        listed_keys(key_file(keys)) == keys,
    decreases keys.len(),
{
    if keys.len() == 0 {
        assert(!key_file(keys).contains('\n'));
        lemma_only_key(key_file(keys));
    } else {
        let rest = keys.drop_first();
        assert(keys[0].len() > 0);
        assert forall|i: int| 0 <= i < rest.len() implies {
            &&& (#[trigger] rest[i]).len() > 0
            &&& rest[i][0] != '#'
            &&& !crate::text::is_space(rest[i].first())
            &&& !crate::text::is_space(rest[i].last())
            &&& !rest[i].contains('\n')
        } by {
            assert(rest[i] == keys[i + 1]);
        }
        law_keys_read_back(rest);
        lemma_first_key(keys.first(), key_file(rest));
        assert(seq![keys.first()] + rest =~= keys);
    }
}

/// A line lists what stands between the whitespace at its ends, unless that is nothing or starts
/// with `#`; how long it is makes no difference.
pub proof fn law_line_lists_its_key(before: Seq<char>, key: Seq<char>, behind: Seq<char>)
    requires
        !(before + key + behind).contains('\n'),
        forall|i: int| 0 <= i < before.len() ==> crate::text::is_space(#[trigger] before[i]),
        forall|i: int| 0 <= i < behind.len() ==> crate::text::is_space(#[trigger] behind[i]),
        key.len() > 0 ==> !crate::text::is_space(key.first()) && !crate::text::is_space(
            key.last(),
        ),
    ensures
        listed_keys(before + key + behind) == if key.len() == 0 || key[0] == '#' {
            seq![]
        } else {
            seq![key]
        },
{
    crate::text::law_trim_drops_what_is_around(before, key, behind);
    lemma_only_key(before + key + behind);
}

/// Trimming leaves nothing to trim, and takes no character from elsewhere.
proof fn lemma_trimmed(s: Seq<char>)
    ensures
        crate::text::trimmed(crate::text::trimmed(s)) == crate::text::trimmed(s),
        forall|c: char| #[trigger] crate::text::trimmed(s).contains(c) ==> s.contains(c),
    decreases s.len(),
{
    if s.len() > 0 {
        if crate::text::is_space(s.first()) {
            lemma_trimmed(s.drop_first());
            assert forall|c: char| #[trigger]
                crate::text::trimmed(s).contains(c) implies s.contains(c) by {
                let t = s.drop_first();
                assert(t.contains(c));
                let j = choose|j: int| 0 <= j < t.len() && t[j] == c;
                assert(s[j + 1] == c);
            }
        } else if crate::text::is_space(s.last()) {
            lemma_trimmed(s.drop_last());
            assert forall|c: char| #[trigger]
                crate::text::trimmed(s).contains(c) implies s.contains(c) by {
                let t = s.drop_last();
                assert(t.contains(c));
                let j = choose|j: int| 0 <= j < t.len() && t[j] == c;
                assert(s[j] == c);
            }
        }
    }
}

/// Whatever the text, each key that it lists is not empty, is no comment, has no whitespace at its
/// ends, and stands on one line.
pub proof fn law_listed_keys_are_clean(text: Seq<char>)
    ensures
        forall|i: int| 0 <= i < listed_keys(text).len() ==> is_listable(#[trigger] listed_keys(text)[i]),
        forall|i: int|
            0 <= i < listed_keys(text).len() ==> {
                &&& (#[trigger] listed_keys(text)[i]).len() > 0
                &&& listed_keys(text)[i][0] != '#'
                &&& !crate::text::is_space(listed_keys(text)[i].first())
                &&& !crate::text::is_space(listed_keys(text)[i].last())
                &&& !listed_keys(text)[i].contains('\n')
            },
    decreases text.len(),
{
    if text.contains('\n') {
        text.index_of_first_ensures('\n');
        let i = text.index_of_first('\n')->0;
        let line = text.take(i);
        let rest = text.skip(i + 1);
        assert(!line.contains('\n')) by {
            if line.contains('\n') {
                let j = choose|j: int| 0 <= j < line.len() && line[j] == '\n';
                assert(text[j] == '\n');
            }
        }
        assert(text =~= line + seq!['\n'] + rest);
        lemma_first_key(line, rest);
        law_listed_keys_are_clean(rest);
        lemma_trimmed(line);
        let head = if is_key(crate::text::trimmed(line)) {
            seq![crate::text::trimmed(line)]
        } else {
            seq![]
        };
        assert forall|j: int| 0 <= j < listed_keys(text).len() implies is_listable(
            #[trigger] listed_keys(text)[j],
        ) by {
            if j >= head.len() {
                assert(listed_keys(text)[j] == listed_keys(rest)[j - head.len()]);
            }
        }
    } else {
        lemma_only_key(text);
        lemma_trimmed(text);
    }
    assert forall|i: int| 0 <= i < listed_keys(text).len() implies {
        &&& (#[trigger] listed_keys(text)[i]).len() > 0
        &&& listed_keys(text)[i][0] != '#'
        &&& !crate::text::is_space(listed_keys(text)[i].first())
        &&& !crate::text::is_space(listed_keys(text)[i].last())
        &&& !listed_keys(text)[i].contains('\n')
    } by {
        assert(is_listable(listed_keys(text)[i]));
        let ends = crate::text::law_trimmed_has_clean_ends(listed_keys(text)[i]);
    }
}

/// A file of one line gives one key, what stands between the whitespace at its ends, or none where
/// that is nothing or a comment.
pub proof fn law_file_of_one_line(
    content: &str,
    before: Seq<char>,
    key: Seq<char>,
    behind: Seq<char>,
    found: Vec<String>,
)
    requires
        call_ensures(keys, (content,), found),
        content@ == before + key + behind,
        !content@.contains('\n'),
        forall|i: int| 0 <= i < before.len() ==> crate::text::is_space(#[trigger] before[i]),
        forall|i: int| 0 <= i < behind.len() ==> crate::text::is_space(#[trigger] behind[i]),
        key.len() > 0 ==> !crate::text::is_space(key.first()) && !crate::text::is_space(
            key.last(),
        ),
    ensures
        key.len() == 0 || key[0] == '#' ==> found@.len() == 0,
        key.len() > 0 && key[0] != '#' ==> found@.len() == 1 && found@[0]@ == key,
{
    law_line_lists_its_key(before, key, behind);
    let views = found@.map_values(|k: String| k@);
    assert(views.len() == found@.len());
    if found@.len() > 0 {
        assert(views[0] == found@[0]@);
    }
}

/// A file gives the keys of its first lines, and then those of the lines that follow.
pub proof fn law_file_of_two_parts(
    first: &str,
    second: &str,
    whole: &str,
    in_first: Vec<String>,
    in_second: Vec<String>,
    in_whole: Vec<String>,
    i: int,
)
    requires
        call_ensures(keys, (first,), in_first),
        call_ensures(keys, (second,), in_second),
        call_ensures(keys, (whole,), in_whole),
        whole@ == first@ + seq!['\n'] + second@,
    ensures
        in_whole@.len() == in_first@.len() + in_second@.len(),
        0 <= i < in_first@.len() ==> in_whole@[i]@ == in_first@[i]@,
        0 <= i < in_second@.len() ==> in_whole@[in_first@.len() + i]@ == in_second@[i]@,
{
    law_keys_of_joined_texts(first@, second@);
    let a = in_first@.map_values(|k: String| k@);
    let b = in_second@.map_values(|k: String| k@);
    let all = in_whole@.map_values(|k: String| k@);
    assert(all == a + b);
    if 0 <= i < in_first@.len() {
        assert(all[i] == a[i]);
    }
    if 0 <= i < in_second@.len() {
        assert(all[a.len() + i] == b[i]);
    }
}

} // verus!
