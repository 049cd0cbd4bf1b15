//! Proved laws of the casing engine: reformatting a snake_case name
//! into snake_case restores it, and converting a classified name to a
//! casing twice yields what converting it once does.

use vstd::prelude::*;

use crate::chars::is_digit_char;
use crate::chars::is_lower_char;
use crate::chars::is_upper_char;
use crate::chars::to_lower_char;
use crate::chars::to_upper_char;
use crate::chars::is_alnum_char;
use crate::naming::Casing;
use crate::naming::all_kebab_chars;
use crate::naming::all_snake_chars;
use crate::naming::camel_fragments_from;
use crate::naming::camel_words;
use crate::naming::cap_word;
use crate::naming::cap_words;
use crate::naming::concat_all;
use crate::naming::delim_fragments_from;
use crate::naming::delim_words;
use crate::naming::has_foreign_char;
use crate::naming::has_lower_after_first;
use crate::naming::has_upper_after_first;
use crate::naming::join_with;
use crate::naming::lower_seq;
use crate::naming::lower_words;
use crate::naming::nonempty_word;
use crate::naming::seq_has_char;
use crate::naming::spec_classify;
use crate::naming::spec_to_camel;
use crate::naming::spec_to_kebab;
use crate::naming::spec_to_pascal;
use crate::naming::spec_to_snake;
use crate::naming::spec_words;
use crate::naming::word_boundary;

verus! {

proof fn delim_fragments_len_pos(s: Seq<char>, d: char, start: int, i: int)
    requires
        0 <= start <= i <= s.len(),
    ensures
        delim_fragments_from(s, d, start, i).len() >= 1,
    decreases s.len() - i,
{
    if i < s.len() && s[i] == d {
        delim_fragments_len_pos(s, d, i + 1, i + 1);
    } else if i < s.len() {
        delim_fragments_len_pos(s, d, start, i + 1);
    }
}

proof fn join_delim_fragments(s: Seq<char>, d: char, start: int, i: int)
    requires
        0 <= start <= i <= s.len(),
    ensures
        join_with(delim_fragments_from(s, d, start, i), d) == s.subrange(start, s.len() as int),
    decreases s.len() - i,
{
    let fs = delim_fragments_from(s, d, start, i);
    if i >= s.len() {
        assert(fs =~= seq![s.subrange(start, s.len() as int)]);
        assert(join_with(fs, d) == s.subrange(start, s.len() as int));
    } else if s[i] == d {
        delim_fragments_len_pos(s, d, i + 1, i + 1);
        join_delim_fragments(s, d, i + 1, i + 1);
        let rest = delim_fragments_from(s, d, i + 1, i + 1);
        assert(fs == seq![s.subrange(start, i)] + rest);
        assert(fs.len() >= 2);
        assert(fs[0] == s.subrange(start, i));
        assert(fs.drop_first() =~= rest);
        assert(join_with(fs, d) == s.subrange(start, i) + seq![d] + join_with(rest, d));
        assert(s.subrange(start, i) + seq![d] + s.subrange(i + 1, s.len() as int) =~= s.subrange(
            start,
            s.len() as int,
        ));
    } else {
        join_delim_fragments(s, d, start, i + 1);
    }
}

proof fn delim_fragments_nonempty(s: Seq<char>, d: char, start: int, i: int)
    requires
        0 <= start <= i <= s.len(),
        s.len() > 0,
        s[0] != d,
        s[s.len() - 1] != d,
        forall|t: int| 0 <= t < s.len() - 1 ==> !((#[trigger] s[t]) == d && s[t + 1] == d),
        start == i ==> (start == 0 || s[start - 1] == d),
    ensures
        forall|k: int|
            0 <= k < delim_fragments_from(s, d, start, i).len() ==> (#[trigger] delim_fragments_from(
                s,
                d,
                start,
                i,
            )[k]).len() > 0,
    decreases s.len() - i,
{
    let fs = delim_fragments_from(s, d, start, i);
    if i >= s.len() {
        assert(start < s.len()) by {
            if start == i && start != 0 {
                assert(s[start - 1] == d);
            }
        }
        assert(fs =~= seq![s.subrange(start, s.len() as int)]);
    } else if s[i] == d {
        assert(start < i) by {
            if start == i {
                if start == 0 {
                    assert(s[0] == d);
                } else {
                    assert(s[start - 1] == d && s[start] == d);
                }
            }
        }
        delim_fragments_nonempty(s, d, i + 1, i + 1);
        let rest = delim_fragments_from(s, d, i + 1, i + 1);
        assert(fs == seq![s.subrange(start, i)] + rest);
        assert forall|k: int| 0 <= k < fs.len() implies (#[trigger] fs[k]).len() > 0 by {
            if k == 0 {
                assert(fs[0] == s.subrange(start, i));
            } else {
                assert(fs[k] == rest[k - 1]);
            }
        }
    } else {
        delim_fragments_nonempty(s, d, start, i + 1);
        let next = delim_fragments_from(s, d, start, i + 1);
        assert(fs == next);
        assert forall|k: int| 0 <= k < fs.len() implies (#[trigger] fs[k]).len() > 0 by {
            assert(fs[k] == next[k]);
        }
    }
}

proof fn delim_fragments_chars(s: Seq<char>, d: char, start: int, i: int)
    requires
        0 <= start <= i <= s.len(),
        forall|t: int| 0 <= t < s.len() ==> is_lower_char(#[trigger] s[t]) || s[t] == d,
        forall|t: int| start <= t < i ==> (#[trigger] s[t]) != d,
    ensures
        forall|k: int, t: int|
            #![trigger delim_fragments_from(s, d, start, i)[k][t]]
            0 <= k < delim_fragments_from(s, d, start, i).len() && 0 <= t
                < delim_fragments_from(s, d, start, i)[k].len() ==> is_lower_char(
                delim_fragments_from(s, d, start, i)[k][t],
            ) && delim_fragments_from(s, d, start, i)[k][t] != d,
    decreases s.len() - i,
{
    let fs = delim_fragments_from(s, d, start, i);
    if i >= s.len() {
        assert(fs =~= seq![s.subrange(start, s.len() as int)]);
        assert forall|k: int, t: int|
            #![trigger fs[k][t]]
            0 <= k < fs.len() && 0 <= t < fs[k].len() implies is_lower_char(fs[k][t]) && fs[k][t]
            != d by {
            assert(fs[k][t] == s[start + t]);
        }
    } else if s[i] == d {
        delim_fragments_chars(s, d, i + 1, i + 1);
        let rest = delim_fragments_from(s, d, i + 1, i + 1);
        assert(fs == seq![s.subrange(start, i)] + rest);
        assert forall|k: int, t: int|
            #![trigger fs[k][t]]
            0 <= k < fs.len() && 0 <= t < fs[k].len() implies is_lower_char(fs[k][t]) && fs[k][t]
            != d by {
            if k == 0 {
                assert(fs[0] == s.subrange(start, i));
                assert(fs[k][t] == s[start + t]);
            } else {
                assert(fs[k] == rest[k - 1]);
            }
        }
    } else {
        delim_fragments_chars(s, d, start, i + 1);
        let next = delim_fragments_from(s, d, start, i + 1);
        assert(fs == next);
        assert forall|k: int, t: int|
            #![trigger fs[k][t]]
            0 <= k < fs.len() && 0 <= t < fs[k].len() implies is_lower_char(fs[k][t]) && fs[k][t]
            != d by {
            assert(fs[k] == next[k]);
            assert(fs[k][t] == next[k][t]);
        }
    }
}

proof fn filter_nonempty_id(ws: Seq<Seq<char>>)
    requires
        forall|k: int| 0 <= k < ws.len() ==> (#[trigger] ws[k]).len() > 0,
    ensures
        ws.filter(|w: Seq<char>| nonempty_word(w)) == ws,
    decreases ws.len(),
{
    reveal_with_fuel(Seq::<_>::filter, 2);
    let pred = |w: Seq<char>| nonempty_word(w);
    if ws.len() == 0 {
        assert(ws.filter(pred) =~= ws);
    } else {
        assert forall|k: int| 0 <= k < ws.drop_last().len() implies (
        #[trigger] ws.drop_last()[k]).len() > 0 by {
            assert(ws.drop_last()[k] == ws[k]);
        }
        filter_nonempty_id(ws.drop_last());
        assert(pred(ws.last()));
        assert(ws.filter(pred) == ws.drop_last().filter(pred).push(ws.last()));
        assert(ws.drop_last().push(ws.last()) =~= ws);
    }
}

proof fn lower_words_id(ws: Seq<Seq<char>>)
    requires
        forall|k: int, t: int|
            #![trigger ws[k][t]]
            0 <= k < ws.len() && 0 <= t < ws[k].len() ==> !is_upper_char(ws[k][t]),
    ensures
        lower_words(ws) == ws,
{
    assert forall|k: int| 0 <= k < ws.len() implies lower_words(ws)[k] == #[trigger] ws[k] by {
        assert(lower_words(ws)[k] == lower_seq(ws[k]));
        assert forall|t: int| 0 <= t < ws[k].len() implies lower_seq(ws[k])[t] == ws[k][t] by {
            assert(!is_upper_char(ws[k][t]));
        }
        assert(lower_seq(ws[k]) =~= ws[k]);
    }
    assert(lower_words(ws) =~= ws);
}

/// Law: splitting a snake_case-classified name into its words and
/// joining them back in snake_case restores the name exactly. The
/// provision: the name must not start or end with `_` nor contain `__`,
/// since splitting drops the empty fragments such runs produce.
pub proof fn lemma_snake_round_trip(s: Seq<char>)
    requires
        spec_classify(s) == Casing::SnakeCase,
        s[0] != '_',
        s[s.len() - 1] != '_',
        forall|t: int| 0 <= t < s.len() - 1 ==> !((#[trigger] s[t]) == '_' && s[t + 1] == '_'),
    ensures
        spec_to_snake(s, Casing::SnakeCase) == s,
{
    assert(s.len() > 0);
    assert(seq_has_char(s, '_'));
    assert(all_snake_chars(s));
    let fs = delim_fragments_from(s, '_', 0, 0);
    delim_fragments_nonempty(s, '_', 0, 0);
    assert forall|t: int| 0 <= t < s.len() implies is_lower_char(#[trigger] s[t]) || s[t]
        == '_' by {}
    delim_fragments_chars(s, '_', 0, 0);
    filter_nonempty_id(fs);
    assert(spec_words(s, Casing::SnakeCase) == delim_words(s, '_'));
    assert(delim_words(s, '_') == fs);
    lower_words_id(fs);
    join_delim_fragments(s, '_', 0, 0);
    assert(s.subrange(0, s.len() as int) =~= s);
}

/// An ASCII letter of either case.
pub open spec fn is_letter_char(c: char) -> bool {
    is_lower_char(c) || is_upper_char(c)
}

/// The shape every word of a classified name has: non-empty, made of
/// letters and digits, starting with a letter, and, for every word but
/// the last, ending with a letter.
pub open spec fn words_shaped(ws: Seq<Seq<char>>) -> bool {
    &&& forall|k: int| 0 <= k < ws.len() ==> (#[trigger] ws[k]).len() > 0
    &&& forall|k: int, t: int|
        #![trigger ws[k][t]]
        0 <= k < ws.len() && 0 <= t < ws[k].len() ==> is_alnum_char(ws[k][t])
    &&& forall|k: int| 0 <= k < ws.len() ==> is_letter_char((#[trigger] ws[k])[0])
    &&& forall|k: int| 0 <= k < ws.len() - 1 ==> is_letter_char((#[trigger] ws[k]).last())
}

proof fn filter_elements(ws: Seq<Seq<char>>, pred: spec_fn(Seq<char>) -> bool)
    ensures
        forall|j: int|
            0 <= j < ws.filter(pred).len() ==> exists|k: int|
                0 <= k < ws.len() && #[trigger] ws.filter(pred)[j] == ws[k],
    decreases ws.len(),
{
    reveal_with_fuel(Seq::<_>::filter, 2);
    if ws.len() == 0 {
    } else {
        filter_elements(ws.drop_last(), pred);
        let fd = ws.drop_last().filter(pred);
        assert forall|j: int| 0 <= j < ws.filter(pred).len() implies exists|k: int|
            0 <= k < ws.len() && #[trigger] ws.filter(pred)[j] == ws[k] by {
            if j < fd.len() {
                assert(ws.filter(pred)[j] == fd[j]);
                let k0 = choose|k0: int| 0 <= k0 < ws.drop_last().len() && fd[j] == ws.drop_last()[
                    k0
                ];
                assert(ws.drop_last()[k0] == ws[k0]);
                assert(ws.filter(pred)[j] == ws[k0]);
            } else {
                assert(pred(ws.last()));
                assert(ws.filter(pred)[j] == ws.last());
                assert(ws.last() == ws[ws.len() - 1]);
            }
        }
    }
}

proof fn camel_fragments_facts(s: Seq<char>, start: int, i: int)
    requires
        0 <= start < i <= s.len(),
        forall|t: int| 0 <= t < s.len() ==> is_alnum_char(#[trigger] s[t]),
        is_letter_char(s[start]),
    ensures
        words_shaped(camel_fragments_from(s, start, i)),
    decreases s.len() - i,
{
    let fs = camel_fragments_from(s, start, i);
    if i >= s.len() {
        assert(fs =~= seq![s.subrange(start, s.len() as int)]);
        assert(fs[0][0] == s[start]);
        assert forall|k: int, t: int|
            #![trigger fs[k][t]]
            0 <= k < fs.len() && 0 <= t < fs[k].len() implies is_alnum_char(fs[k][t]) by {
            assert(fs[k][t] == s[start + t]);
        }
    } else if word_boundary(s, i) {
        assert(is_letter_char(s[i]));
        assert(is_letter_char(s[i - 1]));
        camel_fragments_facts(s, i, i + 1);
        let rest = camel_fragments_from(s, i, i + 1);
        assert(fs == seq![s.subrange(start, i)] + rest);
        let w0 = s.subrange(start, i);
        assert(w0[0] == s[start]);
        assert(w0.last() == s[i - 1]);
        assert forall|k: int| 0 <= k < fs.len() implies (#[trigger] fs[k]).len() > 0 by {
            if k > 0 {
                assert(fs[k] == rest[k - 1]);
            }
        }
        assert forall|k: int, t: int|
            #![trigger fs[k][t]]
            0 <= k < fs.len() && 0 <= t < fs[k].len() implies is_alnum_char(fs[k][t]) by {
            if k == 0 {
                assert(fs[k][t] == s[start + t]);
            } else {
                assert(fs[k] == rest[k - 1]);
            }
        }
        assert forall|k: int| 0 <= k < fs.len() implies is_letter_char((#[trigger] fs[k])[0]) by {
            if k > 0 {
                assert(fs[k] == rest[k - 1]);
            }
        }
        assert forall|k: int| 0 <= k < fs.len() - 1 implies is_letter_char(
            (#[trigger] fs[k]).last(),
        ) by {
            if k > 0 {
                assert(fs[k] == rest[k - 1]);
                assert(rest.len() >= 2);
            }
        }
    } else {
        camel_fragments_facts(s, start, i + 1);
        let next = camel_fragments_from(s, start, i + 1);
        assert(fs == next);
        assert forall|k: int| 0 <= k < fs.len() implies (#[trigger] fs[k]).len() > 0 by {
            assert(fs[k] == next[k]);
        }
        assert forall|k: int, t: int|
            #![trigger fs[k][t]]
            0 <= k < fs.len() && 0 <= t < fs[k].len() implies is_alnum_char(fs[k][t]) by {
            assert(fs[k] == next[k]);
            assert(fs[k][t] == next[k][t]);
        }
        assert forall|k: int| 0 <= k < fs.len() implies is_letter_char((#[trigger] fs[k])[0]) by {
            assert(fs[k] == next[k]);
        }
        assert forall|k: int| 0 <= k < fs.len() - 1 implies is_letter_char(
            (#[trigger] fs[k]).last(),
        ) by {
            assert(fs[k] == next[k]);
        }
    }
}

/// The words of any classified name are shaped as [`words_shaped`]
/// says.
pub proof fn classified_words_shaped(s: Seq<char>)
    requires
        spec_classify(s) != Casing::Undefined,
    ensures
        words_shaped(spec_words(s, spec_classify(s))),
{
    let c = spec_classify(s);
    let ws = spec_words(s, c);
    if c == Casing::SnakeCase {
        assert(all_snake_chars(s));
        let fs = delim_fragments_from(s, '_', 0, 0);
        delim_fragments_chars(s, '_', 0, 0);
        assert(ws == fs.filter(|w: Seq<char>| nonempty_word(w)));
        filter_elements(fs, |w: Seq<char>| nonempty_word(w));
        assert forall|k: int| 0 <= k < ws.len() implies (#[trigger] ws[k]).len() > 0 by {
            fs.lemma_filter_pred(|w: Seq<char>| nonempty_word(w), k);
        }
        assert forall|k: int, t: int|
            #![trigger ws[k][t]]
            0 <= k < ws.len() && 0 <= t < ws[k].len() implies is_alnum_char(ws[k][t])
            && is_lower_char(ws[k][t]) by {
            let k0 = choose|k0: int| 0 <= k0 < fs.len() && ws[k] == fs[k0];
            assert(is_lower_char(fs[k0][t]));
        }
        assert forall|k: int| 0 <= k < ws.len() implies is_letter_char((#[trigger] ws[k])[0]) by {
            assert(is_lower_char(ws[k][0]));
        }
        assert forall|k: int| 0 <= k < ws.len() - 1 implies is_letter_char(
            (#[trigger] ws[k]).last(),
        ) by {
            assert(is_lower_char(ws[k][ws[k].len() - 1]));
        }
    } else if c == Casing::KebabCase {
        assert(all_kebab_chars(s));
        let fs = delim_fragments_from(s, '-', 0, 0);
        delim_fragments_chars(s, '-', 0, 0);
        assert(ws == fs.filter(|w: Seq<char>| nonempty_word(w)));
        filter_elements(fs, |w: Seq<char>| nonempty_word(w));
        assert forall|k: int| 0 <= k < ws.len() implies (#[trigger] ws[k]).len() > 0 by {
            fs.lemma_filter_pred(|w: Seq<char>| nonempty_word(w), k);
        }
        assert forall|k: int, t: int|
            #![trigger ws[k][t]]
            0 <= k < ws.len() && 0 <= t < ws[k].len() implies is_alnum_char(ws[k][t])
            && is_lower_char(ws[k][t]) by {
            let k0 = choose|k0: int| 0 <= k0 < fs.len() && ws[k] == fs[k0];
            assert(is_lower_char(fs[k0][t]));
        }
        assert forall|k: int| 0 <= k < ws.len() implies is_letter_char((#[trigger] ws[k])[0]) by {
            assert(is_lower_char(ws[k][0]));
        }
        assert forall|k: int| 0 <= k < ws.len() - 1 implies is_letter_char(
            (#[trigger] ws[k]).last(),
        ) by {
            assert(is_lower_char(ws[k][ws[k].len() - 1]));
        }
    } else {
        assert(c == Casing::PascalCase || c == Casing::CamelCase);
        assert(s.len() > 0);
        assert(!seq_has_char(s, '_') && !seq_has_char(s, '-') && !has_foreign_char(s));
        assert forall|t: int| 0 <= t < s.len() implies is_alnum_char(#[trigger] s[t]) by {
            assert(!(s[t] == '_'));
            assert(!(s[t] == '-'));
        }
        assert(is_letter_char(s[0]));
        assert(ws == camel_words(s));
        camel_fragments_facts(s, 0, 1);
    }
}

proof fn camel_scan_no_boundary(s: Seq<char>, start: int, i: int, j: int)
    requires
        0 <= start < i <= j <= s.len(),
        forall|t: int| i <= t < j ==> !word_boundary(s, t),
    ensures
        camel_fragments_from(s, start, i) == camel_fragments_from(s, start, j),
    decreases j - i,
{
    if i < j {
        camel_scan_no_boundary(s, start, i + 1, j);
    }
}

proof fn delim_scan_no_match(s: Seq<char>, d: char, start: int, i: int, j: int)
    requires
        0 <= start <= i <= j <= s.len(),
        forall|t: int| i <= t < j ==> (#[trigger] s[t]) != d,
    ensures
        delim_fragments_from(s, d, start, i) == delim_fragments_from(s, d, start, j),
    decreases j - i,
{
    if i < j {
        delim_scan_no_match(s, d, start, i + 1, j);
    }
}

/// The shape capitalised words have after formatting: non-empty, an
/// uppercase first letter for every word but possibly the first, no
/// uppercase characters later in any word, and, for every word but the
/// last, at least two characters the last of which is a lowercase
/// letter.
pub open spec fn formatted_words_shaped(ws: Seq<Seq<char>>, first_upper: bool) -> bool {
    &&& forall|k: int| 0 <= k < ws.len() ==> (#[trigger] ws[k]).len() >= 1
    &&& forall|k: int, t: int|
        #![trigger ws[k][t]]
        0 <= k < ws.len() && 1 <= t < ws[k].len() ==> !is_upper_char(ws[k][t])
    &&& forall|k: int|
        (if first_upper {
            0int
        } else {
            1int
        }) <= k < ws.len() ==> is_upper_char((#[trigger] ws[k])[0])
    &&& forall|k: int|
        0 <= k < ws.len() - 1 ==> (#[trigger] ws[k]).len() >= 2 && is_lower_char(ws[k].last())
}

proof fn camel_resplit(s: Seq<char>, start: int, cws: Seq<Seq<char>>)
    requires
        0 <= start <= s.len(),
        cws.len() >= 1,
        s.subrange(start, s.len() as int) == concat_all(cws),
        formatted_words_shaped(cws, false),
    ensures
        camel_fragments_from(s, start, start + 1) == cws,
    decreases cws.len(),
{
    let w0 = cws[0];
    let rest_cat = concat_all(cws.drop_first());
    assert(concat_all(cws) == w0 + rest_cat);
    let o1 = start + w0.len();
    assert(o1 <= s.len()) by {
        assert(concat_all(cws).len() >= w0.len());
    }
    assert forall|t: int| start <= t < o1 implies s[t] == w0[t - start] by {
        assert(s.subrange(start, s.len() as int)[t - start] == s[t]);
        assert((w0 + rest_cat)[t - start] == w0[t - start]);
    }
    assert forall|t: int| start + 1 <= t < o1 implies !word_boundary(s, t) by {
        assert(s[t] == w0[t - start]);
        assert(!is_upper_char(s[t]));
    }
    if start + 1 <= o1 {
        camel_scan_no_boundary(s, start, start + 1, o1);
    }
    if cws.len() == 1 {
        assert(rest_cat =~= Seq::<char>::empty());
        assert(o1 == s.len()) by {
            assert(s.subrange(start, s.len() as int).len() == (w0 + rest_cat).len());
        }
        assert(camel_fragments_from(s, start, o1) =~= seq![s.subrange(start, s.len() as int)]);
        assert(s.subrange(start, s.len() as int) =~= w0);
        assert(camel_fragments_from(s, start, start + 1) =~= cws);
    } else {
        assert(o1 < s.len()) by {
            assert(concat_all(cws.drop_first()) == cws.drop_first()[0] + concat_all(
                cws.drop_first().drop_first(),
            ));
            assert(cws.drop_first()[0] == cws[1]);
            assert(cws[1].len() >= 1);
            assert(s.subrange(start, s.len() as int).len() == w0.len() + rest_cat.len());
        }
        assert(s[o1] == cws[1][0]) by {
            assert(s.subrange(start, s.len() as int)[o1 - start] == s[o1]);
            assert((w0 + rest_cat)[o1 - start] == rest_cat[0]);
            assert(concat_all(cws.drop_first()) == cws.drop_first()[0] + concat_all(
                cws.drop_first().drop_first(),
            ));
            assert(cws.drop_first()[0] == cws[1]);
            assert(rest_cat[0] == cws[1][0]);
        }
        assert(word_boundary(s, o1)) by {
            assert(w0.len() >= 2);
            assert(s[o1 - 1] == w0.last());
            assert(is_lower_char(s[o1 - 1]));
            assert(is_upper_char(s[o1]));
        }
        assert(camel_fragments_from(s, start, o1) == seq![s.subrange(start, o1)]
            + camel_fragments_from(s, o1, o1 + 1));
        assert(s.subrange(start, o1) =~= w0);
        assert(s.subrange(o1, s.len() as int) =~= rest_cat) by {
            assert forall|t: int| 0 <= t < s.len() - o1 implies s.subrange(
                o1,
                s.len() as int,
            )[t] == rest_cat[t] by {
                assert(s.subrange(start, s.len() as int)[w0.len() + t] == s[o1 + t]);
                assert((w0 + rest_cat)[w0.len() + t] == rest_cat[t]);
            }
            assert(s.subrange(start, s.len() as int).len() == w0.len() + rest_cat.len());
        }
        assert(formatted_words_shaped(cws.drop_first(), false)) by {
            assert forall|k: int| 0 <= k < cws.drop_first().len() implies (
            #[trigger] cws.drop_first()[k]).len() >= 1 by {
                assert(cws.drop_first()[k] == cws[k + 1]);
            }
            assert forall|k: int, t: int|
                #![trigger cws.drop_first()[k][t]]
                0 <= k < cws.drop_first().len() && 1 <= t < cws.drop_first()[k].len() implies
                !is_upper_char(cws.drop_first()[k][t]) by {
                assert(cws.drop_first()[k] == cws[k + 1]);
                assert(cws.drop_first()[k][t] == cws[k + 1][t]);
            }
            assert forall|k: int| 1 <= k < cws.drop_first().len() implies is_upper_char(
                (#[trigger] cws.drop_first()[k])[0],
            ) by {
                assert(cws.drop_first()[k] == cws[k + 1]);
            }
            assert forall|k: int| 0 <= k < cws.drop_first().len() - 1 implies (
            #[trigger] cws.drop_first()[k]).len() >= 2 && is_lower_char(
                cws.drop_first()[k].last(),
            ) by {
                assert(cws.drop_first()[k] == cws[k + 1]);
            }
        }
        assert(is_upper_char(cws.drop_first()[0][0])) by {
            assert(cws.drop_first()[0] == cws[1]);
        }
        camel_resplit(s, o1, cws.drop_first());
        assert(camel_fragments_from(s, start, start + 1) =~= seq![w0] + cws.drop_first());
        assert(seq![w0] + cws.drop_first() =~= cws);
    }
}

proof fn delim_resplit(s: Seq<char>, d: char, start: int, ws: Seq<Seq<char>>)
    requires
        0 <= start <= s.len(),
        ws.len() >= 1,
        s.subrange(start, s.len() as int) == join_with(ws, d),
        forall|k: int| 0 <= k < ws.len() ==> (#[trigger] ws[k]).len() >= 1,
        forall|k: int, t: int|
            #![trigger ws[k][t]]
            0 <= k < ws.len() && 0 <= t < ws[k].len() ==> ws[k][t] != d,
    ensures
        delim_fragments_from(s, d, start, start) == ws,
    decreases ws.len(),
{
    let w0 = ws[0];
    let o = start + w0.len();
    if ws.len() == 1 {
        assert(join_with(ws, d) == w0);
        assert(o == s.len()) by {
            assert(s.subrange(start, s.len() as int).len() == w0.len());
        }
        assert forall|t: int| start <= t < o implies (#[trigger] s[t]) != d by {
            assert(s.subrange(start, s.len() as int)[t - start] == s[t]);
            assert(w0[t - start] != d);
        }
        delim_scan_no_match(s, d, start, start, o);
        assert(delim_fragments_from(s, d, start, o) =~= seq![s.subrange(start, s.len() as int)]);
        assert(delim_fragments_from(s, d, start, start) =~= ws);
    } else {
        let rest_join = join_with(ws.drop_first(), d);
        assert(join_with(ws, d) == w0 + seq![d] + rest_join);
        assert(o + 1 <= s.len()) by {
            assert(s.subrange(start, s.len() as int).len() == w0.len() + 1 + rest_join.len());
        }
        assert forall|t: int| start <= t < o implies (#[trigger] s[t]) != d by {
            assert(s.subrange(start, s.len() as int)[t - start] == s[t]);
            assert((w0 + seq![d] + rest_join)[t - start] == w0[t - start]);
            assert(w0[t - start] != d);
        }
        delim_scan_no_match(s, d, start, start, o);
        assert(s[o] == d) by {
            assert(s.subrange(start, s.len() as int)[o - start] == s[o]);
            assert((w0 + seq![d] + rest_join)[w0.len() as int] == d);
        }
        assert(delim_fragments_from(s, d, start, o) == seq![s.subrange(start, o)]
            + delim_fragments_from(s, d, o + 1, o + 1));
        assert(s.subrange(start, o) =~= w0);
        assert(s.subrange(o + 1, s.len() as int) =~= rest_join) by {
            assert forall|t: int| 0 <= t < s.len() - o - 1 implies s.subrange(
                o + 1,
                s.len() as int,
            )[t] == rest_join[t] by {
                assert(s.subrange(start, s.len() as int)[w0.len() + 1 + t] == s[o + 1 + t]);
                assert((w0 + seq![d] + rest_join)[w0.len() + 1 + t] == rest_join[t]);
            }
            assert(s.subrange(start, s.len() as int).len() == w0.len() + 1 + rest_join.len());
        }
        assert forall|k: int| 0 <= k < ws.drop_first().len() implies (
        #[trigger] ws.drop_first()[k]).len() >= 1 by {
            assert(ws.drop_first()[k] == ws[k + 1]);
        }
        assert forall|k: int, t: int|
            #![trigger ws.drop_first()[k][t]]
            0 <= k < ws.drop_first().len() && 0 <= t < ws.drop_first()[k].len() implies
            ws.drop_first()[k][t] != d by {
            assert(ws.drop_first()[k] == ws[k + 1]);
            assert(ws.drop_first()[k][t] == ws[k + 1][t]);
        }
        delim_resplit(s, d, o + 1, ws.drop_first());
        assert(delim_fragments_from(s, d, start, start) =~= seq![w0] + ws.drop_first());
        assert(seq![w0] + ws.drop_first() =~= ws);
    }
}

proof fn case_map_facts(c: char)
    ensures
        is_letter_char(c) ==> is_upper_char(to_upper_char(c)),
        is_letter_char(c) ==> is_lower_char(to_lower_char(c)),
        is_alnum_char(c) ==> !is_upper_char(to_lower_char(c)),
        is_alnum_char(c) ==> is_alnum_char(to_lower_char(c)),
        is_alnum_char(c) ==> is_alnum_char(to_upper_char(c)),
        !is_upper_char(c) ==> to_lower_char(c) == c,
        !is_lower_char(c) ==> to_upper_char(c) == c,
        to_lower_char(to_lower_char(c)) == to_lower_char(c),
        to_upper_char(to_upper_char(c)) == to_upper_char(c),
{
}

proof fn join_with_chars(ws: Seq<Seq<char>>, d: char, p: spec_fn(char) -> bool)
    requires
        forall|k: int, t: int|
            #![trigger ws[k][t]]
            0 <= k < ws.len() && 0 <= t < ws[k].len() ==> p(ws[k][t]),
        p(d),
    ensures
        forall|t: int| 0 <= t < join_with(ws, d).len() ==> p(#[trigger] join_with(ws, d)[t]),
    decreases ws.len(),
{
    if ws.len() == 0 {
    } else if ws.len() == 1 {
        assert forall|t: int| 0 <= t < join_with(ws, d).len() implies p(
            #[trigger] join_with(ws, d)[t],
        ) by {
            assert(join_with(ws, d)[t] == ws[0][t]);
        }
    } else {
        assert forall|k: int, t: int|
            #![trigger ws.drop_first()[k][t]]
            0 <= k < ws.drop_first().len() && 0 <= t < ws.drop_first()[k].len() implies p(
            ws.drop_first()[k][t],
        ) by {
            assert(ws.drop_first()[k] == ws[k + 1]);
            assert(ws.drop_first()[k][t] == ws[k + 1][t]);
        }
        join_with_chars(ws.drop_first(), d, p);
        let rest = join_with(ws.drop_first(), d);
        assert(join_with(ws, d) == ws[0] + seq![d] + rest);
        assert forall|t: int| 0 <= t < join_with(ws, d).len() implies p(
            #[trigger] join_with(ws, d)[t],
        ) by {
            if t < ws[0].len() {
                assert(join_with(ws, d)[t] == ws[0][t]);
            } else if t == ws[0].len() {
                assert(join_with(ws, d)[t] == d);
            } else {
                assert(join_with(ws, d)[t] == rest[t - ws[0].len() - 1]);
            }
        }
    }
}

proof fn concat_all_chars(ws: Seq<Seq<char>>, p: spec_fn(char) -> bool)
    requires
        forall|k: int, t: int|
            #![trigger ws[k][t]]
            0 <= k < ws.len() && 0 <= t < ws[k].len() ==> p(ws[k][t]),
    ensures
        forall|t: int| 0 <= t < concat_all(ws).len() ==> p(#[trigger] concat_all(ws)[t]),
    decreases ws.len(),
{
    if ws.len() > 0 {
        assert forall|k: int, t: int|
            #![trigger ws.drop_first()[k][t]]
            0 <= k < ws.drop_first().len() && 0 <= t < ws.drop_first()[k].len() implies p(
            ws.drop_first()[k][t],
        ) by {
            assert(ws.drop_first()[k] == ws[k + 1]);
            assert(ws.drop_first()[k][t] == ws[k + 1][t]);
        }
        concat_all_chars(ws.drop_first(), p);
        let rest = concat_all(ws.drop_first());
        assert(concat_all(ws) == ws[0] + rest);
        assert forall|t: int| 0 <= t < concat_all(ws).len() implies p(
            #[trigger] concat_all(ws)[t],
        ) by {
            if t < ws[0].len() {
                assert(concat_all(ws)[t] == ws[0][t]);
            } else {
                assert(concat_all(ws)[t] == rest[t - ws[0].len()]);
            }
        }
    }
}

proof fn cap_word_shape(w: Seq<char>)
    requires
        w.len() >= 1,
        forall|t: int| 0 <= t < w.len() ==> is_alnum_char(#[trigger] w[t]),
        is_letter_char(w[0]),
    ensures
        cap_word(w).len() == w.len(),
        is_upper_char(cap_word(w)[0]),
        forall|t: int| 1 <= t < w.len() ==> !is_upper_char(#[trigger] cap_word(w)[t]),
        forall|t: int| 0 <= t < w.len() ==> is_alnum_char(#[trigger] cap_word(w)[t]),
        is_letter_char(w.last()) && w.len() >= 2 ==> is_lower_char(cap_word(w).last()),
{
    case_map_facts(w[0]);
    assert(cap_word(w)[0] == to_upper_char(w[0]));
    assert forall|t: int| 1 <= t < w.len() implies !is_upper_char(#[trigger] cap_word(w)[t])
        && is_alnum_char(cap_word(w)[t]) by {
        assert(cap_word(w)[t] == to_lower_char(w[t]));
        case_map_facts(w[t]);
    }
    if w.len() >= 2 && is_letter_char(w.last()) {
        assert(cap_word(w).last() == to_lower_char(w.last()));
        case_map_facts(w.last());
    }
}

proof fn cap_words_shape(ws: Seq<Seq<char>>)
    requires
        words_shaped(ws),
        forall|k: int| 0 <= k < ws.len() ==> (#[trigger] ws[k]).len() >= 2,
    ensures
        formatted_words_shaped(cap_words(ws), true),
        forall|k: int| 0 <= k < ws.len() ==> (#[trigger] cap_words(ws)[k]).len() == ws[k].len(),
{
    assert forall|k: int| 0 <= k < ws.len() implies (#[trigger] cap_words(ws)[k]).len() == ws[
        k].len() && (#[trigger] cap_words(ws)[k]).len() >= 1 && is_upper_char(
        cap_words(ws)[k][0],
    ) by {
        assert(cap_words(ws)[k] == cap_word(ws[k]));
        cap_word_shape(ws[k]);
    }
    assert forall|k: int, t: int|
        #![trigger cap_words(ws)[k][t]]
        0 <= k < ws.len() && 1 <= t < cap_words(ws)[k].len() implies !is_upper_char(
        cap_words(ws)[k][t],
    ) by {
        assert(cap_words(ws)[k] == cap_word(ws[k]));
        cap_word_shape(ws[k]);
    }
    assert forall|k: int| 0 <= k < ws.len() - 1 implies (#[trigger] cap_words(ws)[k]).len() >= 2
        && is_lower_char(cap_words(ws)[k].last()) by {
        assert(cap_words(ws)[k] == cap_word(ws[k]));
        assert(is_letter_char(ws[k].last()));
        cap_word_shape(ws[k]);
    }
}

proof fn cap_word_idem(w: Seq<char>)
    requires
        w.len() >= 1,
        forall|t: int| 0 <= t < w.len() ==> is_alnum_char(#[trigger] w[t]),
        is_letter_char(w[0]),
    ensures
        cap_word(cap_word(w)) == cap_word(w),
{
    let cw = cap_word(w);
    assert(cw.len() == w.len());
    case_map_facts(w[0]);
    assert(cw[0] == to_upper_char(w[0]));
    assert(is_upper_char(cw[0]));
    assert(is_letter_char(cw[0]));
    assert forall|t: int| 0 <= t < cw.len() implies cap_word(cw)[t] == #[trigger] cw[t] by {
        if t == 0 {
            assert(cap_word(cw)[0] == to_upper_char(cw[0]));
            case_map_facts(cw[0]);
        } else {
            assert(cap_word(cw)[t] == to_lower_char(cw[t]));
            assert(cw[t] == to_lower_char(w[t]));
            case_map_facts(w[t]);
            case_map_facts(cw[t]);
        }
    }
    assert(cap_word(cw) =~= cw);
}

proof fn cap_words_idem(ws: Seq<Seq<char>>)
    requires
        words_shaped(ws),
    ensures
        cap_words(cap_words(ws)) == cap_words(ws),
{
    assert forall|k: int| 0 <= k < ws.len() implies cap_words(cap_words(ws))[k]
        == #[trigger] cap_words(ws)[k] by {
        assert(cap_words(ws)[k] == cap_word(ws[k]));
        assert(cap_words(cap_words(ws))[k] == cap_word(cap_words(ws)[k]));
        cap_word_idem(ws[k]);
    }
    assert(cap_words(cap_words(ws)) =~= cap_words(ws));
}

proof fn lower_seq_shape(w: Seq<char>)
    requires
        forall|t: int| 0 <= t < w.len() ==> is_alnum_char(#[trigger] w[t]),
    ensures
        lower_seq(w).len() == w.len(),
        forall|t: int|
            0 <= t < w.len() ==> !is_upper_char(#[trigger] lower_seq(w)[t]) && is_alnum_char(
                lower_seq(w)[t],
            ),
        forall|t: int|
            0 <= t < w.len() && is_letter_char(w[t]) ==> is_lower_char(#[trigger] lower_seq(w)[t]),
        lower_seq(lower_seq(w)) == lower_seq(w),
{
    assert forall|t: int| 0 <= t < w.len() implies !is_upper_char(#[trigger] lower_seq(w)[t])
        && is_alnum_char(lower_seq(w)[t]) && (is_letter_char(w[t]) ==> is_lower_char(
        lower_seq(w)[t],
    )) by {
        assert(lower_seq(w)[t] == to_lower_char(w[t]));
        case_map_facts(w[t]);
    }
    assert forall|t: int| 0 <= t < w.len() implies lower_seq(lower_seq(w))[t] == #[trigger] lower_seq(
        w,
    )[t] by {
        assert(lower_seq(lower_seq(w))[t] == to_lower_char(lower_seq(w)[t]));
        case_map_facts(lower_seq(w)[t]);
    }
    assert(lower_seq(lower_seq(w)) =~= lower_seq(w));
}

proof fn words_shaped_drop_first(ws: Seq<Seq<char>>)
    requires
        words_shaped(ws),
        ws.len() >= 1,
    ensures
        words_shaped(ws.drop_first()),
{
    let dw = ws.drop_first();
    assert forall|k: int| 0 <= k < dw.len() implies (#[trigger] dw[k]).len() > 0 by {
        assert(dw[k] == ws[k + 1]);
    }
    assert forall|k: int, t: int|
        #![trigger dw[k][t]]
        0 <= k < dw.len() && 0 <= t < dw[k].len() implies is_alnum_char(dw[k][t]) by {
        assert(dw[k] == ws[k + 1]);
        assert(dw[k][t] == ws[k + 1][t]);
    }
    assert forall|k: int| 0 <= k < dw.len() implies is_letter_char((#[trigger] dw[k])[0]) by {
        assert(dw[k] == ws[k + 1]);
    }
    assert forall|k: int| 0 <= k < dw.len() - 1 implies is_letter_char((#[trigger] dw[k]).last()) by {
        assert(dw[k] == ws[k + 1]);
    }
}

proof fn delim_format_idempotent(s: Seq<char>, d: char)
    requires
        spec_classify(s) != Casing::Undefined,
        d == '_' || d == '-',
        forall|k: int|
            0 <= k < spec_words(s, spec_classify(s)).len() ==> (#[trigger] spec_words(
                s,
                spec_classify(s),
            )[k]).len() >= 2,
    ensures
        ({
            let once = join_with(lower_words(spec_words(s, spec_classify(s))), d);
            let c2 = spec_classify(once);
            c2 == Casing::Undefined || (c2 == (if d == '_' {
                Casing::SnakeCase
            } else {
                Casing::KebabCase
            }) && join_with(lower_words(spec_words(once, c2)), d) == once)
        }),
{
    let c = spec_classify(s);
    let ws = spec_words(s, c);
    classified_words_shaped(s);
    let lws = lower_words(ws);
    let r = join_with(lws, d);
    let c2 = spec_classify(r);
    assert(lws.len() == ws.len());
    assert forall|k: int| 0 <= k < ws.len() implies (#[trigger] lws[k]) == lower_seq(ws[k]) && lws[
        k].len() == ws[k].len() by {}
    assert forall|k: int, t: int|
        #![trigger lws[k][t]]
        0 <= k < lws.len() && 0 <= t < lws[k].len() implies is_alnum_char(lws[k][t])
            && !is_upper_char(lws[k][t]) by {
        assert(lws[k] == lower_seq(ws[k]));
        lower_seq_shape(ws[k]);
    }
    if c2 != Casing::Undefined {
        if ws.len() == 0 {
            assert(r =~= Seq::<char>::empty());
            assert(c2 == Casing::Undefined);
        } else if ws.len() == 1 {
            assert(r == lws[0]);
            assert forall|t: int| 0 <= t < r.len() implies is_alnum_char(#[trigger] r[t])
                && !is_upper_char(r[t]) by {
                assert(r[t] == lws[0][t]);
            }
            assert(!seq_has_char(r, '_'));
            assert(!seq_has_char(r, '-'));
            assert(!has_foreign_char(r));
            assert(!is_upper_char(r[0]));
            assert(!has_upper_after_first(r));
            assert(c2 == Casing::Undefined);
        } else {
            let p = |ch: char| is_alnum_char(ch) || ch == d;
            join_with_chars(lws, d, p);
            assert forall|t: int| 0 <= t < r.len() implies (#[trigger] r[t]) != (if d == '_' {
                '-'
            } else {
                '_'
            }) && (is_alnum_char(r[t]) || r[t] == d) by {
                assert(p(r[t]));
            }
            assert(seq_has_char(r, d)) by {
                assert(r == lws[0] + seq![d] + join_with(lws.drop_first(), d));
                assert(r[lws[0].len() as int] == d);
            }
            assert(!has_foreign_char(r));
            if d == '_' {
                assert(!seq_has_char(r, '-'));
                assert(all_snake_chars(r)) by {
                    if !all_snake_chars(r) {
                        assert(c2 == Casing::Undefined);
                    }
                }
                assert(c2 == Casing::SnakeCase);
            } else {
                assert(!seq_has_char(r, '_'));
                assert(all_kebab_chars(r)) by {
                    if !all_kebab_chars(r) {
                        assert(c2 == Casing::Undefined);
                    }
                }
                assert(c2 == Casing::KebabCase);
            }
            assert(r.subrange(0, r.len() as int) =~= r);
            assert forall|k: int, t: int|
                #![trigger lws[k][t]]
                0 <= k < lws.len() && 0 <= t < lws[k].len() implies lws[k][t] != d by {
                assert(is_alnum_char(lws[k][t]));
            }
            delim_resplit(r, d, 0, lws);
            assert(delim_fragments_from(r, d, 0, 0) == lws);
            filter_nonempty_id(lws);
            assert(delim_words(r, d) == lws);
            assert(spec_words(r, c2) == lws);
            lower_words_id(lws);
            assert(join_with(lower_words(spec_words(r, c2)), d) == r);
        }
    }
}

/// Law: converting a classified name to snake_case twice yields what a
/// single conversion yields, for names whose words are all at least two
/// characters long. A single-letter word can land flush against the
/// next word's capital in an intermediate casing and be cut differently
/// on the second pass, which breaks the law for names like `aBCd`.
pub proof fn lemma_to_snake_idempotent(s: Seq<char>)
    requires
        spec_classify(s) != Casing::Undefined,
        forall|k: int|
            0 <= k < spec_words(s, spec_classify(s)).len() ==> (#[trigger] spec_words(
                s,
                spec_classify(s),
            )[k]).len() >= 2,
    ensures
        ({
            let once = spec_to_snake(s, spec_classify(s));
            spec_to_snake(once, spec_classify(once)) == once
        }),
{
    delim_format_idempotent(s, '_');
}

/// Law: converting a classified name to kebab-case twice yields what a
/// single conversion yields, under the same two-character-words
/// provision as the snake_case law.
pub proof fn lemma_to_kebab_idempotent(s: Seq<char>)
    requires
        spec_classify(s) != Casing::Undefined,
        forall|k: int|
            0 <= k < spec_words(s, spec_classify(s)).len() ==> (#[trigger] spec_words(
                s,
                spec_classify(s),
            )[k]).len() >= 2,
    ensures
        ({
            let once = spec_to_kebab(s, spec_classify(s));
            spec_to_kebab(once, spec_classify(once)) == once
        }),
{
    delim_format_idempotent(s, '-');
}

/// Law: converting a classified name to PascalCase twice yields what a
/// single conversion yields, under the same two-character-words
/// provision as the snake_case law.
pub proof fn lemma_to_pascal_idempotent(s: Seq<char>)
    requires
        spec_classify(s) != Casing::Undefined,
        forall|k: int|
            0 <= k < spec_words(s, spec_classify(s)).len() ==> (#[trigger] spec_words(
                s,
                spec_classify(s),
            )[k]).len() >= 2,
    ensures
        ({
            let once = spec_to_pascal(s, spec_classify(s));
            spec_to_pascal(once, spec_classify(once)) == once
        }),
{
    let c = spec_classify(s);
    let ws = spec_words(s, c);
    classified_words_shaped(s);
    let cws = cap_words(ws);
    let r = concat_all(cws);
    let c2 = spec_classify(r);
    cap_words_shape(ws);
    assert forall|k: int, t: int|
        #![trigger cws[k][t]]
        0 <= k < cws.len() && 0 <= t < cws[k].len() implies is_alnum_char(cws[k][t]) by {
        assert(cws[k] == cap_word(ws[k]));
        cap_word_shape(ws[k]);
    }
    if c2 != Casing::Undefined {
        if ws.len() == 0 {
            assert(r =~= Seq::<char>::empty());
            assert(c2 == Casing::Undefined);
        } else {
            let p = |ch: char| is_alnum_char(ch);
            concat_all_chars(cws, p);
            assert forall|t: int| 0 <= t < r.len() implies is_alnum_char(#[trigger] r[t]) by {
                assert(p(r[t]));
            }
            assert(!seq_has_char(r, '_'));
            assert(!seq_has_char(r, '-'));
            assert(!has_foreign_char(r));
            assert(r[0] == cws[0][0]) by {
                assert(concat_all(cws) == cws[0] + concat_all(cws.drop_first()));
            }
            assert(is_upper_char(r[0]));
            assert(r.len() > 0) by {
                assert(cws[0].len() >= 1);
                assert(concat_all(cws) == cws[0] + concat_all(cws.drop_first()));
            }
            assert(c2 == Casing::PascalCase) by {
                if !(has_lower_after_first(r) || !has_upper_after_first(r)) {
                    assert(c2 == Casing::Undefined);
                }
            }
            assert(formatted_words_shaped(cws, false));
            assert(r.subrange(0, r.len() as int) =~= r);
            camel_resplit(r, 0, cws);
            assert(camel_words(r) == cws);
            assert(spec_words(r, c2) == cws);
            cap_words_idem(ws);
            assert(spec_to_pascal(r, c2) == concat_all(cap_words(cws)));
            assert(concat_all(cap_words(cws)) == r);
        }
    }
}

/// Law: converting a classified name to camelCase twice yields what a
/// single conversion yields, under the same two-character-words
/// provision as the snake_case law.
pub proof fn lemma_to_camel_idempotent(s: Seq<char>)
    requires
        spec_classify(s) != Casing::Undefined,
        forall|k: int|
            0 <= k < spec_words(s, spec_classify(s)).len() ==> (#[trigger] spec_words(
                s,
                spec_classify(s),
            )[k]).len() >= 2,
    ensures
        ({
            let once = spec_to_camel(s, spec_classify(s));
            spec_to_camel(once, spec_classify(once)) == once
        }),
{
    let c = spec_classify(s);
    let ws = spec_words(s, c);
    classified_words_shaped(s);
    if ws.len() == 0 {
        let r = spec_to_camel(s, c);
        assert(r =~= Seq::<char>::empty());
        assert(spec_classify(r) == Casing::Undefined);
    } else {
        let lw0 = lower_seq(ws[0]);
        let cwsr = cap_words(ws.drop_first());
        let r = lw0 + concat_all(cwsr);
        assert(spec_to_camel(s, c) == r);
        let c2 = spec_classify(r);
        lower_seq_shape(ws[0]);
        words_shaped_drop_first(ws);
        assert forall|k: int| 0 <= k < ws.drop_first().len() implies (
        #[trigger] ws.drop_first()[k]).len() >= 2 by {
            assert(ws.drop_first()[k] == ws[k + 1]);
        }
        cap_words_shape(ws.drop_first());
        assert forall|k: int, t: int|
            #![trigger cwsr[k][t]]
            0 <= k < cwsr.len() && 0 <= t < cwsr[k].len() implies is_alnum_char(cwsr[k][t]) by {
            assert(cwsr[k] == cap_word(ws.drop_first()[k]));
            cap_word_shape(ws.drop_first()[k]);
        }
        if c2 != Casing::Undefined {
            if ws.len() == 1 {
                assert(cwsr =~= Seq::<Seq<char>>::empty());
                assert(r =~= lw0);
                assert forall|t: int| 0 <= t < r.len() implies is_alnum_char(#[trigger] r[t])
                    && !is_upper_char(r[t]) by {
                    assert(r[t] == lw0[t]);
                }
                assert(!seq_has_char(r, '_'));
                assert(!seq_has_char(r, '-'));
                assert(!has_foreign_char(r));
                assert(!is_upper_char(r[0]));
                assert(!has_upper_after_first(r));
                assert(c2 == Casing::Undefined);
            } else {
                let full = seq![lw0] + cwsr;
                assert(full.drop_first() =~= cwsr);
                assert(concat_all(full) == full[0] + concat_all(full.drop_first()));
                assert(r == concat_all(full));
                concat_all_chars(cwsr, |ch: char| is_alnum_char(ch));
                assert forall|t: int| 0 <= t < r.len() implies is_alnum_char(#[trigger] r[t]) by {
                    if t < lw0.len() {
                        assert(r[t] == lw0[t]);
                    } else {
                        assert(r[t] == concat_all(cwsr)[t - lw0.len()]);
                    }
                }
                assert(!seq_has_char(r, '_'));
                assert(!seq_has_char(r, '-'));
                assert(!has_foreign_char(r));
                assert(r[0] == lw0[0]);
                assert(is_lower_char(r[0])) by {
                    assert(is_letter_char(ws[0][0]));
                }
                assert(has_upper_after_first(r)) by {
                    assert(cwsr.len() >= 1);
                    assert(concat_all(cwsr) == cwsr[0] + concat_all(cwsr.drop_first()));
                    assert(cwsr[0].len() >= 1);
                    assert(r[lw0.len() as int] == cwsr[0][0]);
                    assert(is_upper_char(cwsr[0][0]));
                    assert(lw0.len() >= 1);
                }
                assert(c2 == Casing::CamelCase);
                assert(formatted_words_shaped(full, false)) by {
                    assert forall|k: int| 0 <= k < full.len() implies (
                    #[trigger] full[k]).len() >= 1 by {
                        if k > 0 {
                            assert(full[k] == cwsr[k - 1]);
                        }
                    }
                    assert forall|k: int, t: int|
                        #![trigger full[k][t]]
                        0 <= k < full.len() && 1 <= t < full[k].len() implies !is_upper_char(
                        full[k][t],
                    ) by {
                        if k == 0 {
                            assert(full[k][t] == lw0[t]);
                        } else {
                            assert(full[k] == cwsr[k - 1]);
                            assert(full[k][t] == cwsr[k - 1][t]);
                        }
                    }
                    assert forall|k: int| 1 <= k < full.len() implies is_upper_char(
                        (#[trigger] full[k])[0],
                    ) by {
                        assert(full[k] == cwsr[k - 1]);
                    }
                    assert forall|k: int| 0 <= k < full.len() - 1 implies (
                    #[trigger] full[k]).len() >= 2 && is_lower_char(full[k].last()) by {
                        if k == 0 {
                            assert(full[0] == lw0);
                            assert(ws[0].len() >= 2);
                            assert(is_letter_char(ws[0].last()));
                            assert(lw0.last() == lower_seq(ws[0])[ws[0].len() - 1]);
                        } else {
                            assert(full[k] == cwsr[k - 1]);
                            assert(cwsr.len() >= 2);
                        }
                    }
                }
                assert(r.subrange(0, r.len() as int) =~= r);
                camel_resplit(r, 0, full);
                assert(camel_words(r) == full);
                assert(spec_words(r, c2) == full);
                assert(full.len() >= 2);
                assert(spec_to_camel(r, c2) == lower_seq(full[0]) + concat_all(
                    cap_words(full.drop_first()),
                ));
                assert(full[0] == lw0);
                assert(lower_seq(lw0) == lw0);
                cap_words_idem(ws.drop_first());
                assert(cap_words(full.drop_first()) == cap_words(cwsr)) by {
                    assert(full.drop_first() =~= cwsr);
                }
                assert(cap_words(cwsr) == cwsr);
                assert(spec_to_camel(r, c2) == r);
            }
        }
    }
}

} // verus!
