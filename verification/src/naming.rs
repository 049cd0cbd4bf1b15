//! Lexical casing of project names: classification of a raw name string
//! into one of four casing conventions, splitting a classified name into
//! its constituent words, and recombining words into a target casing.

use vstd::prelude::*;

use crate::chars::is_alnum;
use crate::chars::is_alnum_char;
use crate::chars::is_lower;
use crate::chars::is_lower_char;
use crate::chars::is_upper;
use crate::chars::is_upper_char;
use crate::chars::str_to_chars;
use crate::chars::to_lower_char;
use crate::chars::to_upper_char;

verus! {

/// The casing convention a name string follows. Classification is total:
/// every string, the empty one included, maps to exactly one variant.
#[derive(Debug, PartialEq, Eq, Clone, Copy, Structural)]
pub enum Casing {
    PascalCase,
    CamelCase,
    KebabCase,
    SnakeCase,
    Undefined,
}

/// True when `c` occurs in `s`.
pub open spec fn seq_has_char(s: Seq<char>, c: char) -> bool {
    exists|i: int| 0 <= i < s.len() && s[i] == c
}

/// True when some character of `s` is outside `[A-Za-z0-9_-]`.
pub open spec fn has_foreign_char(s: Seq<char>) -> bool {
    exists|i: int| 0 <= i < s.len() && !(is_alnum_char(s[i]) || s[i] == '_' || s[i] == '-')
}

/// True when every character of `s` is a lowercase ASCII letter or `_`.
pub open spec fn all_snake_chars(s: Seq<char>) -> bool {
    forall|i: int| 0 <= i < s.len() ==> is_lower_char(s[i]) || s[i] == '_'
}

/// True when every character of `s` is a lowercase ASCII letter or `-`.
pub open spec fn all_kebab_chars(s: Seq<char>) -> bool {
    forall|i: int| 0 <= i < s.len() ==> is_lower_char(s[i]) || s[i] == '-'
}

/// True when some character after the first is an uppercase ASCII letter.
pub open spec fn has_upper_after_first(s: Seq<char>) -> bool {
    exists|i: int| 1 <= i < s.len() && is_upper_char(s[i])
}

/// True when some character after the first is a lowercase ASCII letter.
pub open spec fn has_lower_after_first(s: Seq<char>) -> bool {
    exists|i: int| 1 <= i < s.len() && is_lower_char(s[i])
}

/// The casing of `s`, decided by the rules of [`detect_casing`].
pub open spec fn spec_classify(s: Seq<char>) -> Casing {
    if s.len() == 0 {
        Casing::Undefined
    } else if seq_has_char(s, '_') && seq_has_char(s, '-') {
        Casing::Undefined
    } else if has_foreign_char(s) {
        Casing::Undefined
    } else if seq_has_char(s, '_') {
        if all_snake_chars(s) {
            Casing::SnakeCase
        } else {
            Casing::Undefined
        }
    } else if seq_has_char(s, '-') {
        if all_kebab_chars(s) {
            Casing::KebabCase
        } else {
            Casing::Undefined
        }
    } else if is_upper_char(s[0]) && (has_lower_after_first(s) || !has_upper_after_first(s)) {
        Casing::PascalCase
    } else if is_lower_char(s[0]) && has_upper_after_first(s) {
        Casing::CamelCase
    } else {
        Casing::Undefined
    }
}

/// Classifies a name string into its casing convention.
///
/// The rules, applied in order: an empty string, a string mixing the
/// delimiters `_` and `-`, or one containing a character outside
/// `[A-Za-z0-9_-]` is `Undefined`. With `_` present, every character must
/// be a lowercase letter or `_` for `SnakeCase`; with `-` present, a
/// lowercase letter or `-` for `KebabCase`. Without a delimiter, a name
/// starting with an uppercase letter is `PascalCase` when it has a later
/// lowercase letter or no later uppercase letter, and a name starting
/// with a lowercase letter is `CamelCase` when a later uppercase letter
/// exists. Everything else, an all-lowercase single word included, is
/// `Undefined`.
pub fn detect_casing(input: &str) -> (c: Casing)
    ensures
        c == spec_classify(input@),
{
    let v = str_to_chars(input);
    if v.len() == 0 {
        return Casing::Undefined;
    }
    let n = v.len();
    let mut has_us = false;
    let mut has_hy = false;
    let mut has_other = false;
    let mut all_snake = true;
    let mut all_kebab = true;
    let mut has_upper_int = false;
    let mut has_lower_int = false;
    let mut i: usize = 0;
    while i < n
        invariant
            n == v@.len(),
            v@ == input@,
            i <= n,
            has_us == exists|j: int| 0 <= j < i && v@[j] == '_',
            has_hy == exists|j: int| 0 <= j < i && v@[j] == '-',
            has_other == exists|j: int|
                0 <= j < i && !(is_alnum_char(v@[j]) || v@[j] == '_' || v@[j] == '-'),
            all_snake == forall|j: int| 0 <= j < i ==> is_lower_char(v@[j]) || v@[j] == '_',
            all_kebab == forall|j: int| 0 <= j < i ==> is_lower_char(v@[j]) || v@[j] == '-',
            has_upper_int == exists|j: int| 1 <= j < i && is_upper_char(v@[j]),
            has_lower_int == exists|j: int| 1 <= j < i && is_lower_char(v@[j]),
        decreases n - i,
    {
        let c = v[i];
        if c == '_' {
            has_us = true;
        }
        if c == '-' {
            has_hy = true;
        }
        if !(is_alnum(c) || c == '_' || c == '-') {
            has_other = true;
        }
        if !(is_lower(c) || c == '_') {
            all_snake = false;
        }
        if !(is_lower(c) || c == '-') {
            all_kebab = false;
        }
        if i >= 1 && is_upper(c) {
            has_upper_int = true;
        }
        if i >= 1 && is_lower(c) {
            has_lower_int = true;
        }
        i += 1;
    }
    if (has_us && has_hy) || has_other {
        return Casing::Undefined;
    }
    if has_us {
        if all_snake {
            return Casing::SnakeCase;
        } else {
            return Casing::Undefined;
        }
    }
    if has_hy {
        if all_kebab {
            return Casing::KebabCase;
        } else {
            return Casing::Undefined;
        }
    }
    let first = v[0];
    if is_upper(first) && (has_lower_int || !has_upper_int) {
        return Casing::PascalCase;
    }
    if is_lower(first) && has_upper_int {
        return Casing::CamelCase;
    }
    Casing::Undefined
}

/// True when `w` is not the empty word; the delimiter splitters drop
/// empty fragments.
pub open spec fn nonempty_word(w: Seq<char>) -> bool {
    w.len() > 0
}

/// The fragments of `s[start..]` obtained by cutting at every occurrence
/// of the delimiter `d` at or after position `i`, empty fragments kept.
pub open spec fn delim_fragments_from(s: Seq<char>, d: char, start: int, i: int) -> Seq<Seq<char>>
    recommends
        0 <= start <= i <= s.len(),
    decreases s.len() - i,
{
    if i >= s.len() {
        seq![s.subrange(start, s.len() as int)]
    } else if s[i] == d {
        seq![s.subrange(start, i)] + delim_fragments_from(s, d, i + 1, i + 1)
    } else {
        delim_fragments_from(s, d, start, i + 1)
    }
}

/// All fragments of `s` between occurrences of `d`, empty ones kept.
pub open spec fn delim_fragments(s: Seq<char>, d: char) -> Seq<Seq<char>> {
    delim_fragments_from(s, d, 0, 0)
}

/// The words of a delimiter-cased name: the fragments between
/// occurrences of `d`, with empty fragments dropped.
pub open spec fn delim_words(s: Seq<char>, d: char) -> Seq<Seq<char>> {
    delim_fragments(s, d).filter(|w: Seq<char>| nonempty_word(w))
}

/// True when a word boundary is cut immediately before position `i`:
/// either a lowercase letter is followed by an uppercase one, or two
/// uppercase letters are followed by a lowercase one (which makes the
/// second uppercase letter start the next word).
pub open spec fn word_boundary(s: Seq<char>, i: int) -> bool {
    &&& 1 <= i < s.len()
    &&& {
        ||| (is_lower_char(s[i - 1]) && is_upper_char(s[i]))
        ||| (is_upper_char(s[i - 1]) && is_upper_char(s[i]) && i + 1 < s.len() && is_lower_char(
            s[i + 1],
        ))
    }
}

/// The words of `s[start..]` obtained by cutting at every word boundary
/// at or after position `i`.
pub open spec fn camel_fragments_from(s: Seq<char>, start: int, i: int) -> Seq<Seq<char>>
    recommends
        0 <= start < i <= s.len(),
    decreases s.len() - i,
{
    if i >= s.len() {
        seq![s.subrange(start, s.len() as int)]
    } else if word_boundary(s, i) {
        seq![s.subrange(start, i)] + camel_fragments_from(s, i, i + 1)
    } else {
        camel_fragments_from(s, start, i + 1)
    }
}

/// The words of a Pascal- or camel-cased name.
pub open spec fn camel_words(s: Seq<char>) -> Seq<Seq<char>> {
    if s.len() == 0 {
        Seq::<Seq<char>>::empty()
    } else {
        camel_fragments_from(s, 0, 1)
    }
}

/// The word list extracted from `name` under a given classification:
/// delimiter splitting for snake and kebab casing, boundary scanning for
/// Pascal and camel casing, and the whole string as a single word for an
/// undefined classification (a safe fallback, so that formatting never
/// fails downstream).
pub open spec fn spec_words(s: Seq<char>, casing: Casing) -> Seq<Seq<char>> {
    match casing {
        Casing::SnakeCase => if seq_has_char(s, '_') {
            delim_words(s, '_')
        } else {
            seq![s]
        },
        Casing::KebabCase => delim_words(s, '-'),
        Casing::PascalCase => camel_words(s),
        Casing::CamelCase => camel_words(s),
        Casing::Undefined => seq![s],
    }
}

proof fn filter_singleton(w: Seq<char>, pred: spec_fn(Seq<char>) -> bool)
    ensures
        seq![w].filter(pred) == if pred(w) {
            seq![w]
        } else {
            Seq::<Seq<char>>::empty()
        },
{
    reveal_with_fuel(Seq::<_>::filter, 2);
    let s = seq![w];
    assert(s.drop_last() =~= Seq::<Seq<char>>::empty());
    assert(Seq::<Seq<char>>::empty().filter(pred) =~= Seq::<Seq<char>>::empty());
    if pred(w) {
        assert(s.filter(pred) =~= seq![w]);
    } else {
        assert(s.filter(pred) =~= Seq::<Seq<char>>::empty());
    }
}

fn push_word(words: &mut Vec<String>, v: &Vec<char>, start: usize, end: usize)
    requires
        start <= end <= v.len(),
    ensures
        final(words).deep_view() == old(words).deep_view().push(v@.subrange(start as int, end as int)),
{
    let mut w: Vec<char> = Vec::new();
    let mut k = start;
    while k < end
        invariant
            start <= k <= end <= v.len(),
            w@ == v@.subrange(start as int, k as int),
        decreases end - k,
    {
        w.push(v[k]);
        k += 1;
        proof {
            assert(w@ =~= v@.subrange(start as int, k as int));
        }
    }
    let s = crate::chars::chars_to_string(&w);
    words.push(s);
    proof {
        assert(words.deep_view() =~= old(words).deep_view().push(
            v@.subrange(start as int, end as int),
        ));
    }
}

fn delim_split(v: &Vec<char>, d: char) -> (words: Vec<String>)
    ensures
        words.deep_view() == delim_words(v@, d),
{
    let ghost ne = |w: Seq<char>| nonempty_word(w);
    let n = v.len();
    let mut words: Vec<String> = Vec::new();
    let mut start: usize = 0;
    let mut i: usize = 0;
    while i < n
        invariant
            n == v@.len(),
            start <= i <= n,
            ne == (|w: Seq<char>| nonempty_word(w)),
            words.deep_view() + delim_fragments_from(v@, d, start as int, i as int).filter(ne)
                == delim_fragments(v@, d).filter(ne),
        decreases n - i,
    {
        if v[i] == d {
            proof {
                Seq::filter_distributes_over_add(
                    seq![v@.subrange(start as int, i as int)],
                    delim_fragments_from(v@, d, i as int + 1, i as int + 1),
                    ne,
                );
                filter_singleton(v@.subrange(start as int, i as int), ne);
            }
            if i > start {
                push_word(&mut words, v, start, i);
            }
            start = i + 1;
        }
        i += 1;
    }
    proof {
        Seq::filter_distributes_over_add(
            seq![v@.subrange(start as int, n as int)],
            Seq::<Seq<char>>::empty(),
            ne,
        );
        filter_singleton(v@.subrange(start as int, n as int), ne);
    }
    if n > start {
        push_word(&mut words, v, start, n);
    }
    proof {
        assert(words.deep_view() =~= delim_words(v@, d));
    }
    words
}

fn camel_split(v: &Vec<char>) -> (words: Vec<String>)
    ensures
        words.deep_view() == camel_words(v@),
{
    let n = v.len();
    let mut words: Vec<String> = Vec::new();
    if n == 0 {
        proof {
            assert(words.deep_view() =~= camel_words(v@));
        }
        return words;
    }
    let mut start: usize = 0;
    let mut i: usize = 1;
    while i < n
        invariant
            n == v@.len(),
            n >= 1,
            start < i <= n,
            words.deep_view() + camel_fragments_from(v@, start as int, i as int) == camel_words(
                v@,
            ),
        decreases n - i,
    {
        let prev = v[i - 1];
        let cur = v[i];
        let boundary = (is_lower(prev) && is_upper(cur)) || (is_upper(prev) && is_upper(cur) && i
            + 1 < n && is_lower(v[i + 1]));
        if boundary {
            push_word(&mut words, v, start, i);
            start = i;
            proof {
                assert(words.deep_view() + camel_fragments_from(v@, start as int, i as int + 1)
                    =~= camel_words(v@));
            }
        }
        i += 1;
    }
    push_word(&mut words, v, start, n);
    proof {
        assert(words.deep_view() =~= camel_words(v@));
    }
    words
}

/// Splits `name` into its constituent words under the given
/// classification. Words of a Pascal- or camel-cased name keep their
/// original capitalisation; the formatters below normalise it.
pub fn get_words_from_name(name: &str, casing: Casing) -> (words: Vec<String>)
    ensures
        words.deep_view() == spec_words(name@, casing),
{
    let v = str_to_chars(name);
    match casing {
        Casing::SnakeCase => {
            let mut has_us = false;
            let mut i: usize = 0;
            while i < v.len()
                invariant
                    i <= v@.len(),
                    v@ == name@,
                    has_us == exists|j: int| 0 <= j < i && v@[j] == '_',
                decreases v@.len() - i,
            {
                if v[i] == '_' {
                    has_us = true;
                }
                i += 1;
            }
            if has_us {
                delim_split(&v, '_')
            } else {
                let s = crate::chars::chars_to_string(&v);
                let mut words: Vec<String> = Vec::new();
                words.push(s);
                proof {
                    assert(words.deep_view() =~= seq![name@]);
                }
                words
            }
        },
        Casing::KebabCase => delim_split(&v, '-'),
        Casing::PascalCase => camel_split(&v),
        Casing::CamelCase => camel_split(&v),
        Casing::Undefined => {
            let s = crate::chars::chars_to_string(&v);
            let mut words: Vec<String> = Vec::new();
            words.push(s);
            proof {
                assert(words.deep_view() =~= seq![name@]);
            }
            words
        },
    }
}

/// `w` with every ASCII letter lower-cased.
pub open spec fn lower_seq(w: Seq<char>) -> Seq<char> {
    w.map_values(|c: char| to_lower_char(c))
}

/// `w` with its first character upper-cased and the rest lower-cased.
pub open spec fn cap_word(w: Seq<char>) -> Seq<char> {
    if w.len() == 0 {
        w
    } else {
        seq![to_upper_char(w[0])] + lower_seq(w.subrange(1, w.len() as int))
    }
}

/// Every word of `ws` capitalised.
pub open spec fn cap_words(ws: Seq<Seq<char>>) -> Seq<Seq<char>> {
    ws.map_values(|w: Seq<char>| cap_word(w))
}

/// Every word of `ws` lower-cased.
pub open spec fn lower_words(ws: Seq<Seq<char>>) -> Seq<Seq<char>> {
    ws.map_values(|w: Seq<char>| lower_seq(w))
}

/// The words of `ws` concatenated with no separator.
pub open spec fn concat_all(ws: Seq<Seq<char>>) -> Seq<char>
    decreases ws.len(),
{
    if ws.len() == 0 {
        Seq::<char>::empty()
    } else {
        ws[0] + concat_all(ws.drop_first())
    }
}

/// The words of `ws` joined by the separator `d`.
pub open spec fn join_with(ws: Seq<Seq<char>>, d: char) -> Seq<char>
    decreases ws.len(),
{
    if ws.len() == 0 {
        Seq::<char>::empty()
    } else if ws.len() == 1 {
        ws[0]
    } else {
        ws[0] + seq![d] + join_with(ws.drop_first(), d)
    }
}

/// PascalCase: every word capitalised, concatenated with no separator.
pub open spec fn pascal_of(ws: Seq<Seq<char>>) -> Seq<char> {
    concat_all(cap_words(ws))
}

/// camelCase: the first word fully lower-cased, the rest capitalised.
pub open spec fn camel_of(ws: Seq<Seq<char>>) -> Seq<char> {
    if ws.len() == 0 {
        Seq::<char>::empty()
    } else {
        lower_seq(ws[0]) + concat_all(cap_words(ws.drop_first()))
    }
}

/// snake_case: every word lower-cased, joined with `_`.
pub open spec fn snake_of(ws: Seq<Seq<char>>) -> Seq<char> {
    join_with(lower_words(ws), '_')
}

/// kebab-case: every word lower-cased, joined with `-`.
pub open spec fn kebab_of(ws: Seq<Seq<char>>) -> Seq<char> {
    join_with(lower_words(ws), '-')
}

pub proof fn concat_all_push(ws: Seq<Seq<char>>, w: Seq<char>)
    ensures
        concat_all(ws.push(w)) == concat_all(ws) + w,
    decreases ws.len(),
{
    if ws.len() == 0 {
        assert(ws.push(w).drop_first() =~= Seq::<Seq<char>>::empty());
        assert(concat_all(Seq::<Seq<char>>::empty()) == Seq::<char>::empty());
        assert(concat_all(ws.push(w)) == ws.push(w)[0] + concat_all(ws.push(w).drop_first()));
        assert(concat_all(ws.push(w)) =~= concat_all(ws) + w);
    } else {
        assert(ws.push(w).drop_first() =~= ws.drop_first().push(w));
        concat_all_push(ws.drop_first(), w);
        assert(ws.push(w)[0] == ws[0]);
        assert(concat_all(ws.push(w)) == ws[0] + concat_all(ws.drop_first().push(w)));
        assert(concat_all(ws.drop_first().push(w)) == concat_all(ws.drop_first()) + w);
        assert(ws[0] + (concat_all(ws.drop_first()) + w) =~= (ws[0] + concat_all(
            ws.drop_first(),
        )) + w);
        assert(concat_all(ws.push(w)) == concat_all(ws) + w);
    }
}

pub proof fn join_with_push(ws: Seq<Seq<char>>, d: char, w: Seq<char>)
    ensures
        join_with(ws.push(w), d) == if ws.len() == 0 {
            w
        } else {
            join_with(ws, d) + seq![d] + w
        },
    decreases ws.len(),
{
    if ws.len() == 0 {
        assert(join_with(ws.push(w), d) =~= w);
    } else {
        assert(ws.push(w).drop_first() =~= ws.drop_first().push(w));
        join_with_push(ws.drop_first(), d, w);
        assert(join_with(ws.push(w), d) =~= join_with(ws, d) + seq![d] + w);
    }
}

fn append_lower(acc: &mut Vec<char>, w: &str)
    ensures
        final(acc)@ == old(acc)@ + lower_seq(w@),
{
    let n = w.unicode_len();
    let mut k: usize = 0;
    while k < n
        invariant
            k <= n,
            n == w@.len(),
            acc@ == old(acc)@ + lower_seq(w@.subrange(0, k as int)),
        decreases n - k,
    {
        acc.push(crate::chars::lower_char(w.get_char(k)));
        k += 1;
        proof {
            assert(acc@ =~= old(acc)@ + lower_seq(w@.subrange(0, k as int)));
        }
    }
    proof {
        assert(w@.subrange(0, n as int) =~= w@);
    }
}

fn append_cap(acc: &mut Vec<char>, w: &str)
    ensures
        final(acc)@ == old(acc)@ + cap_word(w@),
{
    let n = w.unicode_len();
    if n == 0 {
        proof {
            assert(acc@ =~= old(acc)@ + cap_word(w@));
        }
        return ;
    }
    acc.push(crate::chars::upper_char(w.get_char(0)));
    let mut k: usize = 1;
    while k < n
        invariant
            1 <= k <= n,
            n == w@.len(),
            acc@ == old(acc)@ + seq![to_upper_char(w@[0])] + lower_seq(
                w@.subrange(1, k as int),
            ),
        decreases n - k,
    {
        acc.push(crate::chars::lower_char(w.get_char(k)));
        k += 1;
        proof {
            assert(acc@ =~= old(acc)@ + seq![to_upper_char(w@[0])] + lower_seq(
                w@.subrange(1, k as int),
            ));
        }
    }
    proof {
        assert(acc@ =~= old(acc)@ + cap_word(w@));
    }
}

/// Capitalises a single word: first character upper-cased, the rest
/// lower-cased.
pub fn capitalize_first_char(s: &str) -> (r: String)
    ensures
        r@ == cap_word(s@),
{
    let mut acc: Vec<char> = Vec::new();
    append_cap(&mut acc, s);
    crate::chars::chars_to_string(&acc)
}

/// Lower-cases every ASCII letter of a word.
pub fn to_all_lowercase(s: &str) -> (r: String)
    ensures
        r@ == lower_seq(s@),
{
    let mut acc: Vec<char> = Vec::new();
    append_lower(&mut acc, s);
    crate::chars::chars_to_string(&acc)
}

fn format_pascal(words: &Vec<String>) -> (r: String)
    ensures
        r@ == pascal_of(words.deep_view()),
{
    let ghost ws = words.deep_view();
    let mut acc: Vec<char> = Vec::new();
    let mut j: usize = 0;
    while j < words.len()
        invariant
            j <= words@.len(),
            ws == words.deep_view(),
            acc@ == concat_all(cap_words(ws.take(j as int))),
        decreases words@.len() - j,
    {
        append_cap(&mut acc, words[j].as_str());
        j += 1;
        proof {
            assert(cap_words(ws.take(j as int)) =~= cap_words(ws.take(j - 1)).push(
                cap_word(ws[j - 1]),
            ));
            concat_all_push(cap_words(ws.take(j - 1)), cap_word(ws[j - 1]));
        }
    }
    proof {
        assert(ws.take(ws.len() as int) =~= ws);
    }
    crate::chars::chars_to_string(&acc)
}

fn format_camel(words: &Vec<String>) -> (r: String)
    ensures
        r@ == camel_of(words.deep_view()),
{
    let ghost ws = words.deep_view();
    let mut acc: Vec<char> = Vec::new();
    if words.len() == 0 {
        return crate::chars::chars_to_string(&acc);
    }
    append_lower(&mut acc, words[0].as_str());
    let mut j: usize = 1;
    while j < words.len()
        invariant
            1 <= j <= words@.len(),
            ws == words.deep_view(),
            ws.len() >= 1,
            acc@ == lower_seq(ws[0]) + concat_all(cap_words(ws.subrange(1, j as int))),
        decreases words@.len() - j,
    {
        append_cap(&mut acc, words[j].as_str());
        j += 1;
        proof {
            assert(cap_words(ws.subrange(1, j as int)) =~= cap_words(
                ws.subrange(1, j - 1),
            ).push(cap_word(ws[j - 1])));
            concat_all_push(cap_words(ws.subrange(1, j - 1)), cap_word(ws[j - 1]));
            assert(acc@ =~= lower_seq(ws[0]) + concat_all(cap_words(ws.subrange(1, j as int))));
        }
    }
    proof {
        assert(ws.subrange(1, ws.len() as int) =~= ws.drop_first());
    }
    crate::chars::chars_to_string(&acc)
}

fn format_joined(words: &Vec<String>, d: char) -> (r: String)
    ensures
        r@ == join_with(lower_words(words.deep_view()), d),
{
    let ghost ws = words.deep_view();
    let mut acc: Vec<char> = Vec::new();
    let mut j: usize = 0;
    while j < words.len()
        invariant
            j <= words@.len(),
            ws == words.deep_view(),
            acc@ == join_with(lower_words(ws.take(j as int)), d),
        decreases words@.len() - j,
    {
        if j > 0 {
            acc.push(d);
        }
        append_lower(&mut acc, words[j].as_str());
        j += 1;
        proof {
            assert(lower_words(ws.take(j as int)) =~= lower_words(ws.take(j - 1)).push(
                lower_seq(ws[j - 1]),
            ));
            join_with_push(lower_words(ws.take(j - 1)), d, lower_seq(ws[j - 1]));
            assert(lower_words(ws.take(j - 1)).len() == (j - 1) as int);
            assert(acc@ =~= join_with(lower_words(ws.take(j as int)), d));
        }
    }
    proof {
        assert(ws.take(ws.len() as int) =~= ws);
    }
    crate::chars::chars_to_string(&acc)
}

/// The PascalCase rendering of `s` classified as `casing`: unchanged for
/// an `Undefined` classification, otherwise its words capitalised and
/// concatenated.
pub open spec fn spec_to_pascal(s: Seq<char>, casing: Casing) -> Seq<char> {
    if casing == Casing::Undefined {
        s
    } else {
        pascal_of(spec_words(s, casing))
    }
}

/// The camelCase rendering of `s` classified as `casing`.
pub open spec fn spec_to_camel(s: Seq<char>, casing: Casing) -> Seq<char> {
    if casing == Casing::Undefined {
        s
    } else {
        camel_of(spec_words(s, casing))
    }
}

/// The snake_case rendering of `s` classified as `casing`.
pub open spec fn spec_to_snake(s: Seq<char>, casing: Casing) -> Seq<char> {
    if casing == Casing::Undefined {
        s
    } else {
        snake_of(spec_words(s, casing))
    }
}

/// The kebab-case rendering of `s` classified as `casing`.
pub open spec fn spec_to_kebab(s: Seq<char>, casing: Casing) -> Seq<char> {
    if casing == Casing::Undefined {
        s
    } else {
        kebab_of(spec_words(s, casing))
    }
}

/// Reformats `name` into PascalCase, splitting it according to
/// `detected_casing`. A name whose classification is `Undefined` is
/// returned unchanged rather than guessed at.
pub fn split_into_pascal_case(name: &String, detected_casing: Casing) -> (r: String)
    ensures
        r@ == spec_to_pascal(name@, detected_casing),
{
    if detected_casing == Casing::Undefined {
        return name.clone();
    }
    let words = get_words_from_name(name.as_str(), detected_casing);
    format_pascal(&words)
}

/// Reformats `name` into camelCase; an `Undefined` classification
/// returns the name unchanged.
pub fn split_into_camel_case(name: &str, detected_casing: Casing) -> (r: String)
    ensures
        r@ == spec_to_camel(name@, detected_casing),
{
    if detected_casing == Casing::Undefined {
        return name.to_owned();
    }
    let words = get_words_from_name(name, detected_casing);
    format_camel(&words)
}

/// Reformats `name` into snake_case; an `Undefined` classification
/// returns the name unchanged.
pub fn split_into_snake_case(name: &str, detected_casing: Casing) -> (r: String)
    ensures
        r@ == spec_to_snake(name@, detected_casing),
{
    if detected_casing == Casing::Undefined {
        return name.to_owned();
    }
    let words = get_words_from_name(name, detected_casing);
    format_joined(&words, '_')
}

/// Reformats `name` into kebab-case; an `Undefined` classification
/// returns the name unchanged.
pub fn split_into_kebab_case(name: &str, detected_casing: Casing) -> (r: String)
    ensures
        r@ == spec_to_kebab(name@, detected_casing),
{
    if detected_casing == Casing::Undefined {
        return name.to_owned();
    }
    let words = get_words_from_name(name, detected_casing);
    format_joined(&words, '-')
}

} // verus!
