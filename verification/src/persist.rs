use vstd::prelude::*;
use vstd::string::StrSliceExecFns;

use crate::db::{DBState, Error};
use crate::idmap::{map_of, IdMap};
use crate::models::{Epic, EpicView, Status, Story, StoryView};
use crate::textutil::{all_digits, digits_val, is_digit};

verus! {

// The stored file holds one object with the fields `last_item_id`, `epics`
// and `stories`; the entity maps are keyed by the decimal id in quotes, an
// epic holds `name`, `description`, `status` and `stories`, a story holds
// the first three. Writing is canonical (no whitespace, fields in this
// order): inside quoted text only the quote and the backslash are escaped
// (by a backslash); every other character, control characters included,
// stands for itself. Reading accepts any amount of blank space between
// tokens and, inside quoted text, also the usual escapes: the shorthand
// ones (backslash followed by one of `" \ / n t r b f`) and `\u` followed
// by four hex digits for any scalar outside the surrogate range (surrogate
// pairs are not joined).
//
// The printer below is the specification of what is written; the parser is
// the specification of what is accepted. Their round trip is proved in
// `lemma_print_parses`.
pub open spec fn last_text() -> Seq<char> {
    seq!['l', 'a', 's', 't', '_', 'i', 't', 'e', 'm', '_', 'i', 'd']
}

pub open spec fn epics_text() -> Seq<char> {
    seq!['e', 'p', 'i', 'c', 's']
}

pub open spec fn stories_text() -> Seq<char> {
    seq!['s', 't', 'o', 'r', 'i', 'e', 's']
}

pub open spec fn name_text() -> Seq<char> {
    seq!['n', 'a', 'm', 'e']
}

pub open spec fn description_text() -> Seq<char> {
    seq!['d', 'e', 's', 'c', 'r', 'i', 'p', 't', 'i', 'o', 'n']
}

pub open spec fn status_key_text() -> Seq<char> {
    seq!['s', 't', 'a', 't', 'u', 's']
}

pub open spec fn status_text(st: Status) -> Seq<char> {
    match st {
        Status::Open => seq!['O', 'p', 'e', 'n'],
        Status::InProgress => seq!['I', 'n', 'P', 'r', 'o', 'g', 'r', 'e', 's', 's'],
        Status::Resolved => seq!['R', 'e', 's', 'o', 'l', 'v', 'e', 'd'],
        Status::Closed => seq!['C', 'l', 'o', 's', 'e', 'd'],
    }
}

pub open spec fn digit_char(d: int) -> char {
    if d == 0 {
        '0'
    } else if d == 1 {
        '1'
    } else if d == 2 {
        '2'
    } else if d == 3 {
        '3'
    } else if d == 4 {
        '4'
    } else if d == 5 {
        '5'
    } else if d == 6 {
        '6'
    } else if d == 7 {
        '7'
    } else if d == 8 {
        '8'
    } else {
        '9'
    }
}

/// The decimal digits of a non-negative number, most significant first.
pub open spec fn spec_dec(n: int) -> Seq<char>
    decreases n,
{
    if n < 10 {
        seq![digit_char(n)]
    } else {
        spec_dec(n / 10).push(digit_char(n % 10))
    }
}

pub open spec fn esc_char(c: char) -> Seq<char> {
    if c == '"' {
        seq!['\\', '"']
    } else if c == '\\' {
        seq!['\\', '\\']
    } else {
        seq![c]
    }
}

pub open spec fn esc_str(t: Seq<char>) -> Seq<char>
    decreases t.len(),
{
    if t.len() == 0 {
        Seq::empty()
    } else {
        esc_char(t[0]) + esc_str(t.skip(1))
    }
}

/// Quoted, escaped text.
pub open spec fn quoted(t: Seq<char>) -> Seq<char> {
    seq!['"'] + esc_str(t) + seq!['"']
}

/// A quoted key followed by a colon.
pub open spec fn print_key(key: Seq<char>) -> Seq<char> {
    quoted(key) + seq![':']
}

pub open spec fn print_ids_inner(ids: Seq<u32>) -> Seq<char>
    decreases ids.len(),
{
    if ids.len() == 0 {
        Seq::empty()
    } else if ids.len() == 1 {
        spec_dec(ids[0] as int)
    } else {
        spec_dec(ids[0] as int) + seq![','] + print_ids_inner(ids.skip(1))
    }
}

pub open spec fn print_ids(ids: Seq<u32>) -> Seq<char> {
    seq!['['] + print_ids_inner(ids) + seq![']']
}

pub open spec fn print_story(v: StoryView) -> Seq<char> {
    seq!['{'] + print_key(name_text()) + quoted(v.name) + seq![','] + print_key(
        description_text(),
    ) + quoted(v.description) + seq![','] + print_key(status_key_text()) + quoted(
        status_text(v.status),
    ) + seq!['}']
}

pub open spec fn print_epic(v: EpicView) -> Seq<char> {
    seq!['{'] + print_key(name_text()) + quoted(v.name) + seq![','] + print_key(
        description_text(),
    ) + quoted(v.description) + seq![','] + print_key(status_key_text()) + quoted(
        status_text(v.status),
    ) + seq![','] + print_key(stories_text()) + print_ids(v.stories) + seq!['}']
}

pub open spec fn print_epic_entry(e: (u32, EpicView)) -> Seq<char> {
    quoted(spec_dec(e.0 as int)) + seq![':'] + print_epic(e.1)
}

pub open spec fn print_story_entry(e: (u32, StoryView)) -> Seq<char> {
    quoted(spec_dec(e.0 as int)) + seq![':'] + print_story(e.1)
}

pub open spec fn print_epic_entries_inner(es: Seq<(u32, EpicView)>) -> Seq<char>
    decreases es.len(),
{
    if es.len() == 0 {
        Seq::empty()
    } else if es.len() == 1 {
        print_epic_entry(es[0])
    } else {
        print_epic_entry(es[0]) + seq![','] + print_epic_entries_inner(es.skip(1))
    }
}

pub open spec fn print_story_entries_inner(es: Seq<(u32, StoryView)>) -> Seq<char>
    decreases es.len(),
{
    if es.len() == 0 {
        Seq::empty()
    } else if es.len() == 1 {
        print_story_entry(es[0])
    } else {
        print_story_entry(es[0]) + seq![','] + print_story_entries_inner(es.skip(1))
    }
}

/// The canonical text of a whole aggregate state, entries in the order the
/// maps keep them.
pub open spec fn print_state(
    last: u32,
    eps: Seq<(u32, EpicView)>,
    sts: Seq<(u32, StoryView)>,
) -> Seq<char> {
    seq!['{'] + print_key(last_text()) + spec_dec(last as int) + seq![','] + print_key(
        epics_text(),
    ) + seq!['{'] + print_epic_entries_inner(eps) + seq!['}'] + seq![','] + print_key(
        stories_text(),
    ) + seq!['{'] + print_story_entries_inner(sts) + seq!['}'] + seq!['}']
}

// ---------------------------------------------------------------------------
// The parser, over (text, position); every function skips blank space first.
pub open spec fn is_ws(c: char) -> bool {
    c == ' ' || c == '\n' || c == '\t' || c == '\r'
}

pub open spec fn sp_ws(s: Seq<char>, i: int) -> int
    decreases s.len() - i,
{
    if 0 <= i < s.len() && is_ws(s[i]) {
        sp_ws(s, i + 1)
    } else {
        i
    }
}

pub open spec fn sp_char(s: Seq<char>, i: int, c: char) -> Option<int> {
    let j = sp_ws(s, i);
    if j < s.len() && s[j] == c {
        Some(j + 1)
    } else {
        None
    }
}

pub open spec fn sp_digits_end(s: Seq<char>, i: int) -> int
    decreases s.len() - i,
{
    if 0 <= i < s.len() && is_digit(s[i]) {
        sp_digits_end(s, i + 1)
    } else {
        i
    }
}

pub open spec fn sp_number(s: Seq<char>, i: int) -> Option<(u32, int)> {
    let j = sp_ws(s, i);
    let e = sp_digits_end(s, j);
    if e == j {
        None
    } else {
        let v = digits_val(s.subrange(j, e));
        if v <= u32::MAX {
            Some((v as u32, e))
        } else {
            None
        }
    }
}

/// The character a shorthand escape stands for, if the character after the
/// backslash is one.
pub open spec fn esc_shorthand(c: char) -> Option<char> {
    if c == '"' {
        Some('"')
    } else if c == '\\' {
        Some('\\')
    } else if c == '/' {
        Some('/')
    } else if c == 'n' {
        Some('\n')
    } else if c == 't' {
        Some('\t')
    } else if c == 'r' {
        Some('\r')
    } else if c == 'b' {
        Some('\u{8}')
    } else if c == 'f' {
        Some('\u{c}')
    } else {
        None
    }
}

pub open spec fn is_hex(c: char) -> bool {
    ('0' <= c && c <= '9') || ('a' <= c && c <= 'f') || ('A' <= c && c <= 'F')
}

pub open spec fn hex_val(c: char) -> int {
    if '0' <= c && c <= '9' {
        c as int - '0' as int
    } else if 'a' <= c && c <= 'f' {
        c as int - 'a' as int + 10
    } else {
        c as int - 'A' as int + 10
    }
}

/// The scalar named by a `\u` escape's four hex digits.
pub open spec fn hex4_val(s: Seq<char>, i: int) -> int {
    hex_val(s[i]) * 4096 + hex_val(s[i + 1]) * 256 + hex_val(s[i + 2]) * 16 + hex_val(s[i + 3])
}

pub open spec fn sp_str_body(s: Seq<char>, i: int) -> Option<(Seq<char>, int)>
    decreases s.len() - i,
{
    if !(0 <= i < s.len()) {
        None
    } else if s[i] == '"' {
        Some((Seq::empty(), i + 1))
    } else if s[i] == '\\' {
        if i + 1 < s.len() && esc_shorthand(s[i + 1]) is Some {
            match sp_str_body(s, i + 2) {
                Some((t, e)) => Some((seq![esc_shorthand(s[i + 1])->Some_0] + t, e)),
                None => None,
            }
        } else if i + 5 < s.len() && s[i + 1] == 'u' && is_hex(s[i + 2]) && is_hex(s[i + 3])
            && is_hex(s[i + 4]) && is_hex(s[i + 5]) && !(0xD800 <= hex4_val(s, i + 2)
            <= 0xDFFF) {
            match sp_str_body(s, i + 6) {
                Some((t, e)) => Some((seq![((hex4_val(s, i + 2) as u32) as char)] + t, e)),
                None => None,
            }
        } else {
            None
        }
    } else {
        match sp_str_body(s, i + 1) {
            Some((t, e)) => Some((seq![s[i]] + t, e)),
            None => None,
        }
    }
}

pub open spec fn sp_string(s: Seq<char>, i: int) -> Option<(Seq<char>, int)> {
    let j = sp_ws(s, i);
    if j < s.len() && s[j] == '"' {
        sp_str_body(s, j + 1)
    } else {
        None
    }
}

pub open spec fn sp_status(s: Seq<char>, i: int) -> Option<(Status, int)> {
    match sp_string(s, i) {
        Some((t, e)) => if t == status_text(Status::Open) {
            Some((Status::Open, e))
        } else if t == status_text(Status::InProgress) {
            Some((Status::InProgress, e))
        } else if t == status_text(Status::Resolved) {
            Some((Status::Resolved, e))
        } else if t == status_text(Status::Closed) {
            Some((Status::Closed, e))
        } else {
            None
        },
        None => None,
    }
}

/// A fixed quoted key followed by a colon.
pub open spec fn sp_field(s: Seq<char>, i: int, key: Seq<char>) -> Option<int> {
    match sp_string(s, i) {
        Some((t, e)) => if t == key {
            sp_char(s, e, ':')
        } else {
            None
        },
        None => None,
    }
}

/// A quoted decimal id, as the entity maps use for keys.
pub open spec fn sp_num_key(s: Seq<char>, i: int) -> Option<(u32, int)> {
    match sp_string(s, i) {
        Some((t, e)) => if t.len() > 0 && all_digits(t) && digits_val(t) <= u32::MAX {
            Some((digits_val(t) as u32, e))
        } else {
            None
        },
        None => None,
    }
}

pub open spec fn sp_ids_ne(s: Seq<char>, i: int) -> Option<(Seq<u32>, int)>
    decreases s.len() - i,
{
    match sp_number(s, i) {
        Some((v, e)) => {
            let j = sp_ws(s, e);
            if j < s.len() && s[j] == ',' {
                if j <= i {
                    None
                } else {
                    match sp_ids_ne(s, j + 1) {
                        Some((rest, e2)) => Some((seq![v] + rest, e2)),
                        None => None,
                    }
                }
            } else if j < s.len() && s[j] == ']' {
                Some((seq![v], j + 1))
            } else {
                None
            }
        },
        None => None,
    }
}

pub open spec fn sp_ids(s: Seq<char>, i: int) -> Option<(Seq<u32>, int)> {
    match sp_char(s, i, '[') {
        Some(j) => {
            let k = sp_ws(s, j);
            if k < s.len() && s[k] == ']' {
                Some((Seq::empty(), k + 1))
            } else {
                sp_ids_ne(s, j)
            }
        },
        None => None,
    }
}

pub open spec fn sp_story(s: Seq<char>, i: int) -> Option<(StoryView, int)> {
    match sp_char(s, i, '{') {
        Some(a) => match sp_field(s, a, name_text()) {
            Some(b) => match sp_str_value(s, b) {
                Some((name, c)) => match sp_char(s, c, ',') {
                    Some(d) => match sp_field(s, d, description_text()) {
                        Some(e) => match sp_str_value(s, e) {
                            Some((description, f)) => match sp_char(s, f, ',') {
                                Some(g) => match sp_field(s, g, status_key_text()) {
                                    Some(h) => match sp_status(s, h) {
                                        Some((status, k)) => match sp_char(s, k, '}') {
                                            Some(m) => Some(
                                                (StoryView { name, description, status }, m),
                                            ),
                                            None => None,
                                        },
                                        None => None,
                                    },
                                    None => None,
                                },
                                None => None,
                            },
                            None => None,
                        },
                        None => None,
                    },
                    None => None,
                },
                None => None,
            },
            None => None,
        },
        None => None,
    }
}

/// A quoted text value; a separate name so that field keys and free text
/// read differently at use sites.
pub open spec fn sp_str_value(s: Seq<char>, i: int) -> Option<(Seq<char>, int)> {
    sp_string(s, i)
}

pub open spec fn sp_epic(s: Seq<char>, i: int) -> Option<(EpicView, int)> {
    match sp_char(s, i, '{') {
        Some(a) => match sp_field(s, a, name_text()) {
            Some(b) => match sp_str_value(s, b) {
                Some((name, c)) => match sp_char(s, c, ',') {
                    Some(d) => match sp_field(s, d, description_text()) {
                        Some(e) => match sp_str_value(s, e) {
                            Some((description, f)) => match sp_char(s, f, ',') {
                                Some(g) => match sp_field(s, g, status_key_text()) {
                                    Some(h) => match sp_status(s, h) {
                                        Some((status, k)) => match sp_char(s, k, ',') {
                                            Some(m) => match sp_field(s, m, stories_text()) {
                                                Some(n) => match sp_ids(s, n) {
                                                    Some((stories, p)) => match sp_char(
                                                        s,
                                                        p,
                                                        '}',
                                                    ) {
                                                        Some(q) => Some(
                                                            (
                                                                EpicView {
                                                                    name,
                                                                    description,
                                                                    status,
                                                                    stories,
                                                                },
                                                                q,
                                                            ),
                                                        ),
                                                        None => None,
                                                    },
                                                    None => None,
                                                },
                                                None => None,
                                            },
                                            None => None,
                                        },
                                        None => None,
                                    },
                                    None => None,
                                },
                                None => None,
                            },
                            None => None,
                        },
                        None => None,
                    },
                    None => None,
                },
                None => None,
            },
            None => None,
        },
        None => None,
    }
}

pub open spec fn sp_epic_entries_ne(s: Seq<char>, i: int) -> Option<
    (Seq<(u32, EpicView)>, int),
>
    decreases s.len() - i,
{
    match sp_num_key(s, i) {
        Some((id, e)) => match sp_char(s, e, ':') {
            Some(f) => match sp_epic(s, f) {
                Some((v, g)) => {
                    let j = sp_ws(s, g);
                    if j < s.len() && s[j] == ',' {
                        if j <= i {
                            None
                        } else {
                            match sp_epic_entries_ne(s, j + 1) {
                                Some((rest, e2)) => Some((seq![(id, v)] + rest, e2)),
                                None => None,
                            }
                        }
                    } else if j < s.len() && s[j] == '}' {
                        Some((seq![(id, v)], j + 1))
                    } else {
                        None
                    }
                },
                None => None,
            },
            None => None,
        },
        None => None,
    }
}

pub open spec fn sp_story_entries_ne(s: Seq<char>, i: int) -> Option<
    (Seq<(u32, StoryView)>, int),
>
    decreases s.len() - i,
{
    match sp_num_key(s, i) {
        Some((id, e)) => match sp_char(s, e, ':') {
            Some(f) => match sp_story(s, f) {
                Some((v, g)) => {
                    let j = sp_ws(s, g);
                    if j < s.len() && s[j] == ',' {
                        if j <= i {
                            None
                        } else {
                            match sp_story_entries_ne(s, j + 1) {
                                Some((rest, e2)) => Some((seq![(id, v)] + rest, e2)),
                                None => None,
                            }
                        }
                    } else if j < s.len() && s[j] == '}' {
                        Some((seq![(id, v)], j + 1))
                    } else {
                        None
                    }
                },
                None => None,
            },
            None => None,
        },
        None => None,
    }
}

/// The entry list of the epics object, the opening brace already consumed;
/// consumes the closing brace.
pub open spec fn sp_epic_entries(s: Seq<char>, i: int) -> Option<(Seq<(u32, EpicView)>, int)> {
    let k = sp_ws(s, i);
    if k < s.len() && s[k] == '}' {
        Some((Seq::empty(), k + 1))
    } else {
        sp_epic_entries_ne(s, i)
    }
}

pub open spec fn sp_story_entries(s: Seq<char>, i: int) -> Option<
    (Seq<(u32, StoryView)>, int),
> {
    let k = sp_ws(s, i);
    if k < s.len() && s[k] == '}' {
        Some((Seq::empty(), k + 1))
    } else {
        sp_story_entries_ne(s, i)
    }
}

/// What a parsed document denotes: the counter and the two entry lists in
/// file order.
pub struct ParsedState {
    pub last_item_id: u32,
    pub epics: Seq<(u32, EpicView)>,
    pub stories: Seq<(u32, StoryView)>,
}

pub open spec fn sp_state(s: Seq<char>, i: int) -> Option<(ParsedState, int)> {
    match sp_char(s, i, '{') {
        Some(a) => match sp_field(s, a, last_text()) {
            Some(b) => match sp_number(s, b) {
                Some((last, c)) => match sp_char(s, c, ',') {
                    Some(d) => match sp_field(s, d, epics_text()) {
                        Some(e) => match sp_char(s, e, '{') {
                            Some(f) => match sp_epic_entries(s, f) {
                                Some((eps, g)) => match sp_char(s, g, ',') {
                                    Some(h) => match sp_field(s, h, stories_text()) {
                                        Some(k) => match sp_char(s, k, '{') {
                                            Some(m) => match sp_story_entries(s, m) {
                                                Some((sts, n)) => match sp_char(s, n, '}') {
                                                    Some(p) => Some(
                                                        (
                                                            ParsedState {
                                                                last_item_id: last,
                                                                epics: eps,
                                                                stories: sts,
                                                            },
                                                            p,
                                                        ),
                                                    ),
                                                    None => None,
                                                },
                                                None => None,
                                            },
                                            None => None,
                                        },
                                        None => None,
                                    },
                                    None => None,
                                },
                                None => None,
                            },
                            None => None,
                        },
                        None => None,
                    },
                    None => None,
                },
                None => None,
            },
            None => None,
        },
        None => None,
    }
}

/// A whole document: one aggregate state and nothing but blank space after
/// it.
pub open spec fn sp_doc(s: Seq<char>) -> Option<ParsedState> {
    match sp_state(s, 0) {
        Some((ps, e)) => if sp_ws(s, e) == s.len() {
            Some(ps)
        } else {
            None
        },
        None => None,
    }
}

// ---------------------------------------------------------------------------
// Round trip: the canonical text of a state parses back to that state.
/// The text holds the piece `p` at position `i`.
pub open spec fn has_at(s: Seq<char>, i: int, p: Seq<char>) -> bool {
    &&& 0 <= i
    &&& i + p.len() <= s.len()
    &&& s.subrange(i, i + p.len()) == p
}

proof fn lemma_has_at_split(s: Seq<char>, i: int, a: Seq<char>, b: Seq<char>)
    requires
        has_at(s, i, a + b),
    ensures
        has_at(s, i, a),
        has_at(s, i + a.len(), b),
{
    assert forall|k: int| 0 <= k < (a + b).len() implies s[i + k] == (a + b)[k] by {
        assert(s.subrange(i, i + (a + b).len())[k] == s[i + k]);
    }
    assert(s.subrange(i, i + a.len()) =~= a);
    assert forall|m: int| 0 <= m < b.len() implies s.subrange(
        i + a.len(),
        i + a.len() + b.len(),
    )[m] == b[m] by {
        assert(s[i + (a.len() + m)] == (a + b)[a.len() + m]);
    }
    assert(s.subrange(i + a.len(), i + a.len() + b.len()) =~= b);
}

proof fn lemma_has_char(s: Seq<char>, i: int, c: char)
    requires
        has_at(s, i, seq![c]),
    ensures
        0 <= i < s.len() && s[i] == c,
{
    assert(s.subrange(i, i + 1)[0] == c);
}

proof fn lemma_ws_stop(s: Seq<char>, i: int)
    requires
        0 <= i <= s.len(),
        i == s.len() || !is_ws(s[i]),
    ensures
        sp_ws(s, i) == i,
{
}

proof fn lemma_parse_char(s: Seq<char>, i: int, c: char)
    requires
        0 <= i < s.len(),
        s[i] == c,
        !is_ws(c),
    ensures
        sp_char(s, i, c) == Some(i + 1),
{
    lemma_ws_stop(s, i);
}

proof fn lemma_esc_plain(t: Seq<char>)
    requires
        forall|k: int| 0 <= k < t.len() ==> t[k] != '"' && t[k] != '\\',
    ensures
        esc_str(t) == t,
    decreases t.len(),
{
    if t.len() > 0 {
        lemma_esc_plain(t.skip(1));
        assert(esc_char(t[0]) =~= seq![t[0]]);
        assert(seq![t[0]] + t.skip(1) =~= t);
    }
}

proof fn lemma_parse_str_body(s: Seq<char>, i: int, t: Seq<char>)
    requires
        has_at(s, i, esc_str(t) + seq!['"']),
    ensures
        sp_str_body(s, i) == Some((t, i + esc_str(t).len() + 1)),
    decreases t.len(),
{
    if t.len() == 0 {
        assert(esc_str(t) + seq!['"'] =~= seq!['"']);
        lemma_has_char(s, i, '"');
        assert(sp_str_body(s, i) == Some((Seq::<char>::empty(), i + 1)));
        assert(t =~= Seq::<char>::empty());
    } else {
        let c = t[0];
        let rest = t.skip(1);
        assert(esc_str(t) == esc_char(c) + esc_str(rest));
        assert((esc_char(c) + esc_str(rest)) + seq!['"'] =~= esc_char(c) + (esc_str(rest)
            + seq!['"']));
        lemma_has_at_split(s, i, esc_char(c), esc_str(rest) + seq!['"']);
        if c == '"' || c == '\\' {
            assert(esc_char(c) =~= seq!['\\'] + seq![c]);
            lemma_has_at_split(s, i, seq!['\\'], seq![c]);
            lemma_has_char(s, i, '\\');
            lemma_has_char(s, i + 1, c);
            assert(esc_shorthand(c) == Some(c));
            lemma_parse_str_body(s, i + 2, rest);
            assert(seq![esc_shorthand(s[i + 1])->Some_0] + rest =~= t);
        } else {
            assert(esc_char(c) =~= seq![c]);
            lemma_has_char(s, i, c);
            lemma_parse_str_body(s, i + 1, rest);
            assert(seq![s[i]] + rest =~= t);
        }
    }
}

proof fn lemma_parse_string(s: Seq<char>, i: int, t: Seq<char>)
    requires
        has_at(s, i, quoted(t)),
    ensures
        sp_string(s, i) == Some((t, i + quoted(t).len())),
{
    assert(quoted(t) =~= seq!['"'] + (esc_str(t) + seq!['"']));
    lemma_has_at_split(s, i, seq!['"'], esc_str(t) + seq!['"']);
    lemma_has_char(s, i, '"');
    lemma_ws_stop(s, i);
    lemma_parse_str_body(s, i + 1, t);
}

proof fn lemma_digit_char_val(d: int)
    requires
        0 <= d < 10,
    ensures
        is_digit(digit_char(d)),
        crate::textutil::digit_val(digit_char(d)) == d,
        digit_char(d) != '"',
        digit_char(d) != '\\',
        !is_ws(digit_char(d)),
{
}

proof fn lemma_spec_dec_digits(n: int)
    requires
        n >= 0,
    ensures
        spec_dec(n).len() >= 1,
        all_digits(spec_dec(n)),
    decreases n,
{
    if n < 10 {
        lemma_digit_char_val(n);
    } else {
        lemma_spec_dec_digits(n / 10);
        lemma_digit_char_val(n % 10);
        let p = spec_dec(n / 10).push(digit_char(n % 10));
        assert forall|k: int| 0 <= k < p.len() implies is_digit(#[trigger] p[k]) by {
            if k < p.len() - 1 {
                assert(p[k] == spec_dec(n / 10)[k]);
            }
        }
    }
}

proof fn lemma_dec_val(n: int)
    requires
        n >= 0,
    ensures
        digits_val(spec_dec(n)) == n,
    decreases n,
{
    assert(digits_val(Seq::<char>::empty()) == 0);
    if n < 10 {
        assert(seq![digit_char(n)].drop_last() =~= Seq::<char>::empty());
        lemma_digit_char_val(n);
        assert(digits_val(seq![digit_char(n)]) == digits_val(Seq::<char>::empty()) * 10
            + crate::textutil::digit_val(digit_char(n)));
    } else {
        lemma_dec_val(n / 10);
        assert(spec_dec(n).drop_last() =~= spec_dec(n / 10));
        lemma_digit_char_val(n % 10);
        assert(spec_dec(n).last() == digit_char(n % 10));
        assert(digits_val(spec_dec(n)) == digits_val(spec_dec(n / 10)) * 10 + crate::textutil::digit_val(
            digit_char(n % 10),
        ));
        assert(n == (n / 10) * 10 + (n % 10)) by (nonlinear_arith)
            requires
                n >= 10,
        ;
    }
}

proof fn lemma_digits_end(s: Seq<char>, i: int, e: int)
    requires
        0 <= i <= e <= s.len(),
        forall|k: int| i <= k < e ==> is_digit(#[trigger] s[k]),
        e == s.len() || !is_digit(s[e]),
    ensures
        sp_digits_end(s, i) == e,
    decreases e - i,
{
    if i < e {
        lemma_digits_end(s, i + 1, e);
    }
}

proof fn lemma_parse_number(s: Seq<char>, i: int, n: u32)
    requires
        has_at(s, i, spec_dec(n as int)),
        i + spec_dec(n as int).len() == s.len() || !is_digit(s[i + spec_dec(n as int).len()]),
    ensures
        sp_number(s, i) == Some((n, i + spec_dec(n as int).len())),
{
    let p = spec_dec(n as int);
    lemma_spec_dec_digits(n as int);
    assert forall|k: int| i <= k < i + p.len() implies is_digit(#[trigger] s[k]) by {
        assert(s.subrange(i, i + p.len())[k - i] == s[k]);
        assert(p[k - i] == s[k]);
    }
    assert(s[i] == p[0]) by {
        assert(s.subrange(i, i + p.len())[0] == s[i]);
    }
    assert(!is_ws(s[i])) by {
        assert(is_digit(p[0]));
    }
    lemma_ws_stop(s, i);
    lemma_digits_end(s, i, i + p.len());
    assert(s.subrange(i, i + p.len()) == p);
    lemma_dec_val(n as int);
}

proof fn lemma_parse_num_key(s: Seq<char>, i: int, n: u32)
    requires
        has_at(s, i, quoted(spec_dec(n as int))),
    ensures
        sp_num_key(s, i) == Some((n, i + quoted(spec_dec(n as int)).len())),
{
    lemma_parse_string(s, i, spec_dec(n as int));
    lemma_spec_dec_digits(n as int);
    lemma_dec_val(n as int);
}

proof fn lemma_parse_field(s: Seq<char>, i: int, key: Seq<char>)
    requires
        has_at(s, i, print_key(key)),
    ensures
        sp_field(s, i, key) == Some(i + print_key(key).len()),
{
    assert(print_key(key) =~= quoted(key) + seq![':']);
    lemma_has_at_split(s, i, quoted(key), seq![':']);
    lemma_parse_string(s, i, key);
    lemma_has_char(s, i + quoted(key).len(), ':');
    lemma_parse_char(s, i + quoted(key).len(), ':');
}

proof fn lemma_parse_status(s: Seq<char>, i: int, st: Status)
    requires
        has_at(s, i, quoted(status_text(st))),
    ensures
        sp_status(s, i) == Some((st, i + quoted(status_text(st)).len())),
{
    lemma_parse_string(s, i, status_text(st));
}

proof fn lemma_parse_ids_ne(s: Seq<char>, i: int, ids: Seq<u32>)
    requires
        ids.len() >= 1,
        has_at(s, i, print_ids_inner(ids) + seq![']']),
    ensures
        sp_ids_ne(s, i) == Some((ids, i + print_ids_inner(ids).len() + 1)),
    decreases ids.len(),
{
    let v = ids[0];
    let d = spec_dec(v as int);
    lemma_spec_dec_digits(v as int);
    if ids.len() == 1 {
        assert(print_ids_inner(ids) + seq![']'] =~= d + seq![']']);
        lemma_has_at_split(s, i, d, seq![']']);
        lemma_has_char(s, i + d.len(), ']');
        lemma_parse_number(s, i, v);
        lemma_ws_stop(s, i + d.len());
        assert(seq![v] =~= ids);
    } else {
        let rest = ids.skip(1);
        assert(print_ids_inner(ids) == d + seq![','] + print_ids_inner(rest));
        assert((d + seq![','] + print_ids_inner(rest)) + seq![']'] =~= d + (seq![','] + (
        print_ids_inner(rest) + seq![']'])));
        lemma_has_at_split(s, i, d, seq![','] + (print_ids_inner(rest) + seq![']']));
        lemma_has_at_split(s, i + d.len(), seq![','], print_ids_inner(rest) + seq![']']);
        lemma_has_char(s, i + d.len(), ',');
        lemma_parse_number(s, i, v);
        lemma_ws_stop(s, i + d.len());
        lemma_parse_ids_ne(s, i + d.len() + 1, rest);
        assert(seq![v] + rest =~= ids);
    }
}

proof fn lemma_parse_ids(s: Seq<char>, i: int, ids: Seq<u32>)
    requires
        has_at(s, i, print_ids(ids)),
    ensures
        sp_ids(s, i) == Some((ids, i + print_ids(ids).len())),
{
    assert(print_ids(ids) =~= seq!['['] + (print_ids_inner(ids) + seq![']']));
    lemma_has_at_split(s, i, seq!['['], print_ids_inner(ids) + seq![']']);
    lemma_has_char(s, i, '[');
    lemma_parse_char(s, i, '[');
    if ids.len() == 0 {
        assert(print_ids_inner(ids) + seq![']'] =~= seq![']']);
        lemma_has_char(s, i + 1, ']');
        lemma_ws_stop(s, i + 1);
        assert(Seq::<u32>::empty() =~= ids);
    } else {
        let d = spec_dec(ids[0] as int);
        lemma_spec_dec_digits(ids[0] as int);
        assert(print_ids_inner(ids).len() >= 1);
        assert(s[i + 1] == print_ids_inner(ids)[0]) by {
            let p = print_ids_inner(ids) + seq![']'];
            assert(s.subrange(i + 1, i + 1 + p.len())[0] == s[i + 1]);
        }
        assert(print_ids_inner(ids)[0] == d[0]) by {
            if ids.len() > 1 {
                assert((d + seq![','] + print_ids_inner(ids.skip(1)))[0] == d[0]);
            }
        }
        assert(is_digit(s[i + 1]));
        lemma_ws_stop(s, i + 1);
        lemma_parse_ids_ne(s, i + 1, ids);
    }
}

proof fn lemma_parse_story(s: Seq<char>, i: int, v: StoryView)
    requires
        has_at(s, i, print_story(v)),
    ensures
        sp_story(s, i) == Some((v, i + print_story(v).len())),
{
    let p1 = seq!['{'];
    let p2 = print_key(name_text());
    let p3 = quoted(v.name);
    let p4 = seq![','];
    let p5 = print_key(description_text());
    let p6 = quoted(v.description);
    let p7 = seq![','];
    let p8 = print_key(status_key_text());
    let p9 = quoted(status_text(v.status));
    let p10 = seq!['}'];
    lemma_has_at_split(s, i, p1 + p2 + p3 + p4 + p5 + p6 + p7 + p8 + p9, p10);
    let i9 = i + (p1 + p2 + p3 + p4 + p5 + p6 + p7 + p8 + p9).len();
    lemma_has_at_split(s, i, p1 + p2 + p3 + p4 + p5 + p6 + p7 + p8, p9);
    let i8 = i + (p1 + p2 + p3 + p4 + p5 + p6 + p7 + p8).len();
    lemma_has_at_split(s, i, p1 + p2 + p3 + p4 + p5 + p6 + p7, p8);
    let i7 = i + (p1 + p2 + p3 + p4 + p5 + p6 + p7).len();
    lemma_has_at_split(s, i, p1 + p2 + p3 + p4 + p5 + p6, p7);
    let i6 = i + (p1 + p2 + p3 + p4 + p5 + p6).len();
    lemma_has_at_split(s, i, p1 + p2 + p3 + p4 + p5, p6);
    let i5 = i + (p1 + p2 + p3 + p4 + p5).len();
    lemma_has_at_split(s, i, p1 + p2 + p3 + p4, p5);
    let i4 = i + (p1 + p2 + p3 + p4).len();
    lemma_has_at_split(s, i, p1 + p2 + p3, p4);
    let i3 = i + (p1 + p2 + p3).len();
    lemma_has_at_split(s, i, p1 + p2, p3);
    let i2 = i + (p1 + p2).len();
    lemma_has_at_split(s, i, p1, p2);
    let i1 = i + p1.len();
    lemma_has_char(s, i, '{');
    lemma_parse_char(s, i, '{');
    lemma_parse_field(s, i1, name_text());
    lemma_parse_string(s, i2, v.name);
    lemma_has_char(s, i3, ',');
    lemma_parse_char(s, i3, ',');
    lemma_parse_field(s, i4, description_text());
    lemma_parse_string(s, i5, v.description);
    lemma_has_char(s, i6, ',');
    lemma_parse_char(s, i6, ',');
    lemma_parse_field(s, i7, status_key_text());
    lemma_parse_status(s, i8, v.status);
    lemma_has_char(s, i9, '}');
    lemma_parse_char(s, i9, '}');
    assert(v == (StoryView { name: v.name, description: v.description, status: v.status }));
}

proof fn lemma_parse_epic(s: Seq<char>, i: int, v: EpicView)
    requires
        has_at(s, i, print_epic(v)),
    ensures
        sp_epic(s, i) == Some((v, i + print_epic(v).len())),
{
    let p1 = seq!['{'];
    let p2 = print_key(name_text());
    let p3 = quoted(v.name);
    let p4 = seq![','];
    let p5 = print_key(description_text());
    let p6 = quoted(v.description);
    let p7 = seq![','];
    let p8 = print_key(status_key_text());
    let p9 = quoted(status_text(v.status));
    let p10 = seq![','];
    let p11 = print_key(stories_text());
    let p12 = print_ids(v.stories);
    let p13 = seq!['}'];
    lemma_has_at_split(
        s,
        i,
        p1 + p2 + p3 + p4 + p5 + p6 + p7 + p8 + p9 + p10 + p11 + p12,
        p13,
    );
    let i12 = i + (p1 + p2 + p3 + p4 + p5 + p6 + p7 + p8 + p9 + p10 + p11 + p12).len();
    lemma_has_at_split(s, i, p1 + p2 + p3 + p4 + p5 + p6 + p7 + p8 + p9 + p10 + p11, p12);
    let i11 = i + (p1 + p2 + p3 + p4 + p5 + p6 + p7 + p8 + p9 + p10 + p11).len();
    lemma_has_at_split(s, i, p1 + p2 + p3 + p4 + p5 + p6 + p7 + p8 + p9 + p10, p11);
    let i10 = i + (p1 + p2 + p3 + p4 + p5 + p6 + p7 + p8 + p9 + p10).len();
    lemma_has_at_split(s, i, p1 + p2 + p3 + p4 + p5 + p6 + p7 + p8 + p9, p10);
    let i9 = i + (p1 + p2 + p3 + p4 + p5 + p6 + p7 + p8 + p9).len();
    lemma_has_at_split(s, i, p1 + p2 + p3 + p4 + p5 + p6 + p7 + p8, p9);
    let i8 = i + (p1 + p2 + p3 + p4 + p5 + p6 + p7 + p8).len();
    lemma_has_at_split(s, i, p1 + p2 + p3 + p4 + p5 + p6 + p7, p8);
    let i7 = i + (p1 + p2 + p3 + p4 + p5 + p6 + p7).len();
    lemma_has_at_split(s, i, p1 + p2 + p3 + p4 + p5 + p6, p7);
    let i6 = i + (p1 + p2 + p3 + p4 + p5 + p6).len();
    lemma_has_at_split(s, i, p1 + p2 + p3 + p4 + p5, p6);
    let i5 = i + (p1 + p2 + p3 + p4 + p5).len();
    lemma_has_at_split(s, i, p1 + p2 + p3 + p4, p5);
    let i4 = i + (p1 + p2 + p3 + p4).len();
    lemma_has_at_split(s, i, p1 + p2 + p3, p4);
    let i3 = i + (p1 + p2 + p3).len();
    lemma_has_at_split(s, i, p1 + p2, p3);
    let i2 = i + (p1 + p2).len();
    lemma_has_at_split(s, i, p1, p2);
    let i1 = i + p1.len();
    lemma_has_char(s, i, '{');
    lemma_parse_char(s, i, '{');
    lemma_parse_field(s, i1, name_text());
    lemma_parse_string(s, i2, v.name);
    lemma_has_char(s, i3, ',');
    lemma_parse_char(s, i3, ',');
    lemma_parse_field(s, i4, description_text());
    lemma_parse_string(s, i5, v.description);
    lemma_has_char(s, i6, ',');
    lemma_parse_char(s, i6, ',');
    lemma_parse_field(s, i7, status_key_text());
    lemma_parse_status(s, i8, v.status);
    lemma_has_char(s, i9, ',');
    lemma_parse_char(s, i9, ',');
    lemma_parse_field(s, i10, stories_text());
    lemma_parse_ids(s, i11, v.stories);
    lemma_has_char(s, i12, '}');
    lemma_parse_char(s, i12, '}');
    assert(v == (EpicView {
        name: v.name,
        description: v.description,
        status: v.status,
        stories: v.stories,
    }));
}

#[verifier::rlimit(100)]
proof fn lemma_parse_epic_entries_ne(s: Seq<char>, i: int, es: Seq<(u32, EpicView)>)
    requires
        es.len() >= 1,
        has_at(s, i, print_epic_entries_inner(es) + seq!['}']),
    ensures
        sp_epic_entries_ne(s, i) == Some((es, i + print_epic_entries_inner(es).len() + 1)),
    decreases es.len(),
{
    let id = es[0].0;
    let v = es[0].1;
    let k = quoted(spec_dec(id as int));
    let e1 = print_epic_entry(es[0]);
    assert(e1 == k + seq![':'] + print_epic(v));
    if es.len() == 1 {
        assert(print_epic_entries_inner(es) + seq!['}'] =~= (k + seq![':'] + print_epic(v))
            + seq!['}']);
        lemma_has_at_split(s, i, k + seq![':'] + print_epic(v), seq!['}']);
        lemma_has_at_split(s, i, k + seq![':'], print_epic(v));
        lemma_has_at_split(s, i, k, seq![':']);
        lemma_parse_num_key(s, i, id);
        lemma_has_char(s, i + k.len(), ':');
        lemma_parse_char(s, i + k.len(), ':');
        lemma_parse_epic(s, i + k.len() + 1, v);
        let g = i + k.len() + 1 + print_epic(v).len();
        lemma_has_char(s, g, '}');
        lemma_ws_stop(s, g);
        assert(seq![(id, v)] =~= es);
    } else {
        let rest = es.skip(1);
        assert(print_epic_entries_inner(es) == e1 + seq![','] + print_epic_entries_inner(rest));
        assert((e1 + seq![','] + print_epic_entries_inner(rest)) + seq!['}'] =~= e1 + (seq![',']
            + (print_epic_entries_inner(rest) + seq!['}'])));
        lemma_has_at_split(s, i, e1, seq![','] + (print_epic_entries_inner(rest) + seq!['}']));
        lemma_has_at_split(
            s,
            i + e1.len(),
            seq![','],
            print_epic_entries_inner(rest) + seq!['}'],
        );
        assert(e1 =~= (k + seq![':']) + print_epic(v));
        lemma_has_at_split(s, i, k + seq![':'], print_epic(v));
        lemma_has_at_split(s, i, k, seq![':']);
        lemma_parse_num_key(s, i, id);
        lemma_has_char(s, i + k.len(), ':');
        lemma_parse_char(s, i + k.len(), ':');
        lemma_parse_epic(s, i + k.len() + 1, v);
        let g = i + e1.len();
        lemma_has_char(s, g, ',');
        lemma_ws_stop(s, g);
        lemma_parse_epic_entries_ne(s, g + 1, rest);
        assert(seq![(id, v)] + rest =~= es);
    }
}

#[verifier::rlimit(100)]
proof fn lemma_parse_story_entries_ne(s: Seq<char>, i: int, es: Seq<(u32, StoryView)>)
    requires
        es.len() >= 1,
        has_at(s, i, print_story_entries_inner(es) + seq!['}']),
    ensures
        sp_story_entries_ne(s, i) == Some((es, i + print_story_entries_inner(es).len() + 1)),
    decreases es.len(),
{
    let id = es[0].0;
    let v = es[0].1;
    let k = quoted(spec_dec(id as int));
    let e1 = print_story_entry(es[0]);
    assert(e1 == k + seq![':'] + print_story(v));
    if es.len() == 1 {
        assert(print_story_entries_inner(es) + seq!['}'] =~= (k + seq![':'] + print_story(v))
            + seq!['}']);
        lemma_has_at_split(s, i, k + seq![':'] + print_story(v), seq!['}']);
        lemma_has_at_split(s, i, k + seq![':'], print_story(v));
        lemma_has_at_split(s, i, k, seq![':']);
        lemma_parse_num_key(s, i, id);
        lemma_has_char(s, i + k.len(), ':');
        lemma_parse_char(s, i + k.len(), ':');
        lemma_parse_story(s, i + k.len() + 1, v);
        let g = i + k.len() + 1 + print_story(v).len();
        lemma_has_char(s, g, '}');
        lemma_ws_stop(s, g);
        assert(seq![(id, v)] =~= es);
    } else {
        let rest = es.skip(1);
        assert(print_story_entries_inner(es) == e1 + seq![','] + print_story_entries_inner(
            rest,
        ));
        assert((e1 + seq![','] + print_story_entries_inner(rest)) + seq!['}'] =~= e1 + (
        seq![','] + (print_story_entries_inner(rest) + seq!['}'])));
        lemma_has_at_split(s, i, e1, seq![','] + (print_story_entries_inner(rest) + seq!['}']));
        lemma_has_at_split(
            s,
            i + e1.len(),
            seq![','],
            print_story_entries_inner(rest) + seq!['}'],
        );
        assert(e1 =~= (k + seq![':']) + print_story(v));
        lemma_has_at_split(s, i, k + seq![':'], print_story(v));
        lemma_has_at_split(s, i, k, seq![':']);
        lemma_parse_num_key(s, i, id);
        lemma_has_char(s, i + k.len(), ':');
        lemma_parse_char(s, i + k.len(), ':');
        lemma_parse_story(s, i + k.len() + 1, v);
        let g = i + e1.len();
        lemma_has_char(s, g, ',');
        lemma_ws_stop(s, g);
        lemma_parse_story_entries_ne(s, g + 1, rest);
        assert(seq![(id, v)] + rest =~= es);
    }
}

proof fn lemma_parse_epic_entries(s: Seq<char>, i: int, es: Seq<(u32, EpicView)>)
    requires
        has_at(s, i, print_epic_entries_inner(es) + seq!['}']),
    ensures
        sp_epic_entries(s, i) == Some((es, i + print_epic_entries_inner(es).len() + 1)),
{
    if es.len() == 0 {
        assert(print_epic_entries_inner(es) + seq!['}'] =~= seq!['}']);
        lemma_has_char(s, i, '}');
        lemma_ws_stop(s, i);
        assert(Seq::<(u32, EpicView)>::empty() =~= es);
    } else {
        let p = print_epic_entries_inner(es) + seq!['}'];
        assert(s[i] == p[0]) by {
            assert(s.subrange(i, i + p.len())[0] == s[i]);
        }
        assert(p[0] == '"') by {
            let e1 = print_epic_entry(es[0]);
            assert(e1[0] == quoted(spec_dec(es[0].0 as int))[0]);
            if es.len() > 1 {
                assert((e1 + seq![','] + print_epic_entries_inner(es.skip(1)))[0] == e1[0]);
            }
        }
        lemma_ws_stop(s, i);
        lemma_parse_epic_entries_ne(s, i, es);
    }
}

proof fn lemma_parse_story_entries(s: Seq<char>, i: int, es: Seq<(u32, StoryView)>)
    requires
        has_at(s, i, print_story_entries_inner(es) + seq!['}']),
    ensures
        sp_story_entries(s, i) == Some((es, i + print_story_entries_inner(es).len() + 1)),
{
    if es.len() == 0 {
        assert(print_story_entries_inner(es) + seq!['}'] =~= seq!['}']);
        lemma_has_char(s, i, '}');
        lemma_ws_stop(s, i);
        assert(Seq::<(u32, StoryView)>::empty() =~= es);
    } else {
        let p = print_story_entries_inner(es) + seq!['}'];
        assert(s[i] == p[0]) by {
            assert(s.subrange(i, i + p.len())[0] == s[i]);
        }
        assert(p[0] == '"') by {
            let e1 = print_story_entry(es[0]);
            assert(e1[0] == quoted(spec_dec(es[0].0 as int))[0]);
            if es.len() > 1 {
                assert((e1 + seq![','] + print_story_entries_inner(es.skip(1)))[0] == e1[0]);
            }
        }
        lemma_ws_stop(s, i);
        lemma_parse_story_entries_ne(s, i, es);
    }
}

#[verifier::rlimit(100)]
proof fn lemma_parse_state(
    s: Seq<char>,
    i: int,
    last: u32,
    eps: Seq<(u32, EpicView)>,
    sts: Seq<(u32, StoryView)>,
)
    requires
        has_at(s, i, print_state(last, eps, sts)),
    ensures
        sp_state(s, i) == Some(
            (
                ParsedState { last_item_id: last, epics: eps, stories: sts },
                i + print_state(last, eps, sts).len(),
            ),
        ),
{
    let p1 = seq!['{'];
    let p2 = print_key(last_text());
    let p3 = spec_dec(last as int);
    let p4 = seq![','];
    let p5 = print_key(epics_text());
    let p6 = seq!['{'];
    let p7 = print_epic_entries_inner(eps);
    let p8 = seq!['}'];
    let p9 = seq![','];
    let p10 = print_key(stories_text());
    let p11 = seq!['{'];
    let p12 = print_story_entries_inner(sts);
    let p13 = seq!['}'];
    let p14 = seq!['}'];
    lemma_has_at_split(
        s,
        i,
        p1 + p2 + p3 + p4 + p5 + p6 + p7 + p8 + p9 + p10 + p11 + p12 + p13,
        p14,
    );
    let i13 = i + (p1 + p2 + p3 + p4 + p5 + p6 + p7 + p8 + p9 + p10 + p11 + p12 + p13).len();
    lemma_has_at_split(
        s,
        i,
        p1 + p2 + p3 + p4 + p5 + p6 + p7 + p8 + p9 + p10 + p11 + p12,
        p13,
    );
    let i12 = i + (p1 + p2 + p3 + p4 + p5 + p6 + p7 + p8 + p9 + p10 + p11 + p12).len();
    lemma_has_at_split(s, i, p1 + p2 + p3 + p4 + p5 + p6 + p7 + p8 + p9 + p10 + p11, p12);
    let i11 = i + (p1 + p2 + p3 + p4 + p5 + p6 + p7 + p8 + p9 + p10 + p11).len();
    lemma_has_at_split(s, i, p1 + p2 + p3 + p4 + p5 + p6 + p7 + p8 + p9 + p10, p11);
    let i10 = i + (p1 + p2 + p3 + p4 + p5 + p6 + p7 + p8 + p9 + p10).len();
    lemma_has_at_split(s, i, p1 + p2 + p3 + p4 + p5 + p6 + p7 + p8 + p9, p10);
    let i9 = i + (p1 + p2 + p3 + p4 + p5 + p6 + p7 + p8 + p9).len();
    lemma_has_at_split(s, i, p1 + p2 + p3 + p4 + p5 + p6 + p7 + p8, p9);
    let i8 = i + (p1 + p2 + p3 + p4 + p5 + p6 + p7 + p8).len();
    lemma_has_at_split(s, i, p1 + p2 + p3 + p4 + p5 + p6 + p7, p8);
    let i7 = i + (p1 + p2 + p3 + p4 + p5 + p6 + p7).len();
    lemma_has_at_split(s, i, p1 + p2 + p3 + p4 + p5 + p6, p7);
    let i6 = i + (p1 + p2 + p3 + p4 + p5 + p6).len();
    lemma_has_at_split(s, i, p1 + p2 + p3 + p4 + p5, p6);
    let i5 = i + (p1 + p2 + p3 + p4 + p5).len();
    lemma_has_at_split(s, i, p1 + p2 + p3 + p4, p5);
    let i4 = i + (p1 + p2 + p3 + p4).len();
    lemma_has_at_split(s, i, p1 + p2 + p3, p4);
    let i3 = i + (p1 + p2 + p3).len();
    lemma_has_at_split(s, i, p1 + p2, p3);
    let i2 = i + (p1 + p2).len();
    lemma_has_at_split(s, i, p1, p2);
    let i1 = i + p1.len();
    lemma_has_char(s, i, '{');
    lemma_parse_char(s, i, '{');
    lemma_parse_field(s, i1, last_text());
    lemma_has_char(s, i3, ',');
    lemma_parse_number(s, i2, last);
    lemma_parse_char(s, i3, ',');
    lemma_parse_field(s, i4, epics_text());
    lemma_has_char(s, i5, '{');
    lemma_parse_char(s, i5, '{');
    assert(has_at(s, i6, p7 + p8)) by {
        assert forall|m: int| 0 <= m < (p7 + p8).len() implies s.subrange(
            i6,
            i6 + (p7 + p8).len(),
        )[m] == (p7 + p8)[m] by {
            if m < p7.len() {
                assert(s.subrange(i6, i6 + p7.len())[m] == (p7 + p8)[m]);
            } else {
                assert(s.subrange(i7, i7 + p8.len())[m - p7.len()] == (p7 + p8)[m]);
            }
            assert(s.subrange(i6, i6 + (p7 + p8).len())[m] == s[i6 + m]);
        }
        assert(s.subrange(i6, i6 + (p7 + p8).len()) =~= p7 + p8);
    }
    lemma_parse_epic_entries(s, i6, eps);
    lemma_has_char(s, i8, ',');
    lemma_parse_char(s, i8, ',');
    lemma_parse_field(s, i9, stories_text());
    lemma_has_char(s, i10, '{');
    lemma_parse_char(s, i10, '{');
    assert(has_at(s, i11, p12 + p13)) by {
        assert forall|m: int| 0 <= m < (p12 + p13).len() implies s.subrange(
            i11,
            i11 + (p12 + p13).len(),
        )[m] == (p12 + p13)[m] by {
            if m < p12.len() {
                assert(s.subrange(i11, i11 + p12.len())[m] == (p12 + p13)[m]);
            } else {
                assert(s.subrange(i12, i12 + p13.len())[m - p12.len()] == (p12 + p13)[m]);
            }
            assert(s.subrange(i11, i11 + (p12 + p13).len())[m] == s[i11 + m]);
        }
        assert(s.subrange(i11, i11 + (p12 + p13).len()) =~= p12 + p13);
    }
    lemma_parse_story_entries(s, i11, sts);
    lemma_has_char(s, i13, '}');
    lemma_parse_char(s, i13, '}');
}

/// Round trip: the canonical text of an aggregate state parses back to
/// exactly the written counter and entry lists. Serialization is lossless
/// for the defined shape.
pub proof fn lemma_print_parses(last: u32, eps: Seq<(u32, EpicView)>, sts: Seq<(u32, StoryView)>)
    ensures
        sp_doc(print_state(last, eps, sts)) == Some(
            ParsedState { last_item_id: last, epics: eps, stories: sts },
        ),
{
    let s = print_state(last, eps, sts);
    assert(s.subrange(0, s.len() as int) =~= s);
    lemma_parse_state(s, 0, last, eps, sts);
    lemma_ws_stop(s, s.len() as int);
}

// ---------------------------------------------------------------------------
// The writer.
/// Relies on String's `FromIterator<char>`: collecting characters yields the
/// string of exactly those characters, in order.
#[verifier::external_body]
fn chars_to_string(v: &Vec<char>) -> (r: String)
    ensures
        r@ == v@,
{
    v.iter().collect()
}

fn push_ch(out: &mut Vec<char>, c: char)
    ensures
        final(out)@ == old(out)@ + seq![c],
{
    out.push(c);
    proof {
        assert(out@ =~= old(out)@ + seq![c]);
    }
}

fn digit_ch(d: u32) -> (c: char)
    requires
        d < 10,
    ensures
        c == digit_char(d as int),
{
    if d == 0 {
        '0'
    } else if d == 1 {
        '1'
    } else if d == 2 {
        '2'
    } else if d == 3 {
        '3'
    } else if d == 4 {
        '4'
    } else if d == 5 {
        '5'
    } else if d == 6 {
        '6'
    } else if d == 7 {
        '7'
    } else if d == 8 {
        '8'
    } else {
        '9'
    }
}

fn emit_dec(out: &mut Vec<char>, n: u32)
    ensures
        final(out)@ == old(out)@ + spec_dec(n as int),
    decreases n,
{
    if n < 10 {
        push_ch(out, digit_ch(n));
    } else {
        emit_dec(out, n / 10);
        push_ch(out, digit_ch(n % 10));
        proof {
            assert(out@ =~= old(out)@ + spec_dec(n as int));
        }
    }
}

fn emit_str_tail(out: &mut Vec<char>, t: &str, i: usize)
    requires
        i <= old(out).len(),
        i <= t@.len(),
    ensures
        final(out)@ == old(out)@ + esc_str(t@.skip(i as int)),
    decreases t@.len() - i,
{
    let n = t.unicode_len();
    if i < n {
        let c = t.get_char(i);
        proof {
            assert(t@.skip(i as int)[0] == c);
            assert(t@.skip(i as int).skip(1) =~= t@.skip(i + 1));
        }
        if c == '"' {
            push_ch(out, '\\');
            push_ch(out, '"');
        } else if c == '\\' {
            push_ch(out, '\\');
            push_ch(out, '\\');
        } else {
            push_ch(out, c);
        }
        emit_str_tail(out, t, i + 1);
        proof {
            assert(out@ =~= old(out)@ + esc_str(t@.skip(i as int)));
        }
    } else {
        proof {
            assert(t@.skip(i as int) =~= Seq::<char>::empty());
            assert(out@ =~= old(out)@ + esc_str(t@.skip(i as int)));
        }
    }
}

fn emit_quoted(out: &mut Vec<char>, t: &str)
    ensures
        final(out)@ == old(out)@ + quoted(t@),
{
    push_ch(out, '"');
    emit_str_tail(out, t, 0);
    push_ch(out, '"');
    proof {
        assert(t@.skip(0) =~= t@);
        assert(out@ =~= old(out)@ + quoted(t@));
    }
}

fn emit_key(out: &mut Vec<char>, key: &str)
    ensures
        final(out)@ == old(out)@ + print_key(key@),
{
    emit_quoted(out, key);
    push_ch(out, ':');
    proof {
        assert(out@ =~= old(out)@ + print_key(key@));
    }
}

fn emit_status(out: &mut Vec<char>, st: Status)
    ensures
        final(out)@ == old(out)@ + quoted(status_text(st)),
{
    match st {
        Status::Open => {
            proof {
                reveal_strlit("Open");
                assert("Open"@ =~= status_text(Status::Open));
            }
            emit_quoted(out, "Open");
        },
        Status::InProgress => {
            proof {
                reveal_strlit("InProgress");
                assert("InProgress"@ =~= status_text(Status::InProgress));
            }
            emit_quoted(out, "InProgress");
        },
        Status::Resolved => {
            proof {
                reveal_strlit("Resolved");
                assert("Resolved"@ =~= status_text(Status::Resolved));
            }
            emit_quoted(out, "Resolved");
        },
        Status::Closed => {
            proof {
                reveal_strlit("Closed");
                assert("Closed"@ =~= status_text(Status::Closed));
            }
            emit_quoted(out, "Closed");
        },
    }
}

fn emit_ids_tail(out: &mut Vec<char>, ids: &Vec<u32>, i: usize)
    requires
        i <= ids@.len(),
    ensures
        final(out)@ == old(out)@ + print_ids_inner(ids@.skip(i as int)),
    decreases ids@.len() - i,
{
    if i < ids.len() {
        emit_dec(out, ids[i]);
        proof {
            assert(ids@.skip(i as int)[0] == ids@[i as int]);
            assert(ids@.skip(i as int).skip(1) =~= ids@.skip(i + 1));
        }
        if i + 1 < ids.len() {
            push_ch(out, ',');
            emit_ids_tail(out, ids, i + 1);
            proof {
                assert(out@ =~= old(out)@ + print_ids_inner(ids@.skip(i as int)));
            }
        } else {
            proof {
                assert(ids@.skip(i as int).len() == 1);
                assert(out@ =~= old(out)@ + print_ids_inner(ids@.skip(i as int)));
            }
        }
    } else {
        proof {
            assert(ids@.skip(i as int) =~= Seq::<u32>::empty());
            assert(out@ =~= old(out)@ + print_ids_inner(ids@.skip(i as int)));
        }
    }
}

fn emit_ids(out: &mut Vec<char>, ids: &Vec<u32>)
    ensures
        final(out)@ == old(out)@ + print_ids(ids@),
{
    push_ch(out, '[');
    emit_ids_tail(out, ids, 0);
    push_ch(out, ']');
    proof {
        assert(ids@.skip(0) =~= ids@);
        assert(out@ =~= old(out)@ + print_ids(ids@));
    }
}

fn emit_story(out: &mut Vec<char>, v: &Story)
    ensures
        final(out)@ == old(out)@ + print_story(v@),
{
    push_ch(out, '{');
    proof {
        reveal_strlit("name");
        assert("name"@ =~= name_text());
        reveal_strlit("description");
        assert("description"@ =~= description_text());
        reveal_strlit("status");
        assert("status"@ =~= status_key_text());
    }
    emit_key(out, "name");
    emit_quoted(out, v.name.as_str());
    push_ch(out, ',');
    emit_key(out, "description");
    emit_quoted(out, v.description.as_str());
    push_ch(out, ',');
    emit_key(out, "status");
    emit_status(out, v.status);
    push_ch(out, '}');
    proof {
        assert(out@ =~= old(out)@ + print_story(v@));
    }
}

fn emit_epic(out: &mut Vec<char>, v: &Epic)
    ensures
        final(out)@ == old(out)@ + print_epic(v@),
{
    push_ch(out, '{');
    proof {
        reveal_strlit("name");
        assert("name"@ =~= name_text());
        reveal_strlit("description");
        assert("description"@ =~= description_text());
        reveal_strlit("status");
        assert("status"@ =~= status_key_text());
        reveal_strlit("stories");
        assert("stories"@ =~= stories_text());
    }
    emit_key(out, "name");
    emit_quoted(out, v.name.as_str());
    push_ch(out, ',');
    emit_key(out, "description");
    emit_quoted(out, v.description.as_str());
    push_ch(out, ',');
    emit_key(out, "status");
    emit_status(out, v.status);
    push_ch(out, ',');
    emit_key(out, "stories");
    emit_ids(out, &v.stories);
    push_ch(out, '}');
    proof {
        assert(out@ =~= old(out)@ + print_epic(v@));
    }
}

fn emit_epic_entries_tail(out: &mut Vec<char>, m: &IdMap<Epic>, i: usize)
    requires
        i <= m.entry_seq().len(),
    ensures
        final(out)@ == old(out)@ + print_epic_entries_inner(m.entry_seq().skip(i as int)),
    decreases m.entry_seq().len() - i,
{
    let n = m.len();
    if i < n {
        let entry = m.entry_at(i);
        push_ch(out, '"');
        emit_dec(out, entry.0);
        push_ch(out, '"');
        push_ch(out, ':');
        emit_epic(out, entry.1);
        proof {
            assert(m.entry_seq().skip(i as int)[0] == m.entry_seq()[i as int]);
            assert(m.entry_seq().skip(i as int).skip(1) =~= m.entry_seq().skip(i + 1));
            lemma_spec_dec_digits(entry.0 as int);
            assert forall|k: int| 0 <= k < spec_dec(entry.0 as int).len() implies spec_dec(
                entry.0 as int,
            )[k] != '"' && spec_dec(entry.0 as int)[k] != '\\' by {
                assert(is_digit(spec_dec(entry.0 as int)[k]));
            }
            lemma_esc_plain(spec_dec(entry.0 as int));
            assert(quoted(spec_dec(entry.0 as int)) =~= seq!['"'] + spec_dec(entry.0 as int)
                + seq!['"']);
            assert(print_epic_entry(m.entry_seq()[i as int]) == quoted(
                spec_dec(entry.0 as int),
            ) + seq![':'] + print_epic(entry.1@));
        }
        if i + 1 < n {
            push_ch(out, ',');
            emit_epic_entries_tail(out, m, i + 1);
            proof {
                assert(out@ =~= old(out)@ + print_epic_entries_inner(
                    m.entry_seq().skip(i as int),
                ));
            }
        } else {
            proof {
                assert(m.entry_seq().skip(i as int).len() == 1);
                assert(out@ =~= old(out)@ + print_epic_entries_inner(
                    m.entry_seq().skip(i as int),
                ));
            }
        }
    } else {
        proof {
            assert(m.entry_seq().skip(i as int) =~= Seq::<(u32, EpicView)>::empty());
            assert(out@ =~= old(out)@ + print_epic_entries_inner(m.entry_seq().skip(i as int)));
        }
    }
}

fn emit_story_entries_tail(out: &mut Vec<char>, m: &IdMap<Story>, i: usize)
    requires
        i <= m.entry_seq().len(),
    ensures
        final(out)@ == old(out)@ + print_story_entries_inner(m.entry_seq().skip(i as int)),
    decreases m.entry_seq().len() - i,
{
    let n = m.len();
    if i < n {
        let entry = m.entry_at(i);
        push_ch(out, '"');
        emit_dec(out, entry.0);
        push_ch(out, '"');
        push_ch(out, ':');
        emit_story(out, entry.1);
        proof {
            assert(m.entry_seq().skip(i as int)[0] == m.entry_seq()[i as int]);
            assert(m.entry_seq().skip(i as int).skip(1) =~= m.entry_seq().skip(i + 1));
            lemma_spec_dec_digits(entry.0 as int);
            assert forall|k: int| 0 <= k < spec_dec(entry.0 as int).len() implies spec_dec(
                entry.0 as int,
            )[k] != '"' && spec_dec(entry.0 as int)[k] != '\\' by {
                assert(is_digit(spec_dec(entry.0 as int)[k]));
            }
            lemma_esc_plain(spec_dec(entry.0 as int));
            assert(quoted(spec_dec(entry.0 as int)) =~= seq!['"'] + spec_dec(entry.0 as int)
                + seq!['"']);
            assert(print_story_entry(m.entry_seq()[i as int]) == quoted(
                spec_dec(entry.0 as int),
            ) + seq![':'] + print_story(entry.1@));
        }
        if i + 1 < n {
            push_ch(out, ',');
            emit_story_entries_tail(out, m, i + 1);
            proof {
                assert(out@ =~= old(out)@ + print_story_entries_inner(
                    m.entry_seq().skip(i as int),
                ));
            }
        } else {
            proof {
                assert(m.entry_seq().skip(i as int).len() == 1);
                assert(out@ =~= old(out)@ + print_story_entries_inner(
                    m.entry_seq().skip(i as int),
                ));
            }
        }
    } else {
        proof {
            assert(m.entry_seq().skip(i as int) =~= Seq::<(u32, StoryView)>::empty());
            assert(out@ =~= old(out)@ + print_story_entries_inner(
                m.entry_seq().skip(i as int),
            ));
        }
    }
}

/// Writes the canonical text of the whole aggregate state, entries in the
/// order the maps keep them.
pub fn to_json(state: &DBState) -> (r: String)
    ensures
        r@ == print_state(
            state@.last_item_id,
            state.epics.entry_seq(),
            state.stories.entry_seq(),
        ),
{
    let mut out: Vec<char> = Vec::new();
    push_ch(&mut out, '{');
    proof {
        reveal_strlit("last_item_id");
        assert("last_item_id"@ =~= last_text());
        reveal_strlit("epics");
        assert("epics"@ =~= epics_text());
        reveal_strlit("stories");
        assert("stories"@ =~= stories_text());
    }
    emit_key(&mut out, "last_item_id");
    emit_dec(&mut out, state.last_item_id);
    push_ch(&mut out, ',');
    emit_key(&mut out, "epics");
    push_ch(&mut out, '{');
    emit_epic_entries_tail(&mut out, &state.epics, 0);
    push_ch(&mut out, '}');
    push_ch(&mut out, ',');
    emit_key(&mut out, "stories");
    push_ch(&mut out, '{');
    emit_story_entries_tail(&mut out, &state.stories, 0);
    push_ch(&mut out, '}');
    push_ch(&mut out, '}');
    proof {
        assert(state.epics.entry_seq().skip(0) =~= state.epics.entry_seq());
        assert(state.stories.entry_seq().skip(0) =~= state.stories.entry_seq());
        assert(out@ =~= Seq::<char>::empty() + print_state(
            state@.last_item_id,
            state.epics.entry_seq(),
            state.stories.entry_seq(),
        ));
        assert(Seq::<char>::empty() + print_state(
            state@.last_item_id,
            state.epics.entry_seq(),
            state.stories.entry_seq(),
        ) =~= print_state(
            state@.last_item_id,
            state.epics.entry_seq(),
            state.stories.entry_seq(),
        ));
    }
    chars_to_string(&out)
}

// ---------------------------------------------------------------------------
// The reader.
fn char_at(t: &Vec<char>, k: usize) -> (c: char)
    requires
        k < t@.len(),
    ensures
        c == t@[k as int],
{
    t[k]
}

fn str_chars(t: &str) -> (v: Vec<char>)
    ensures
        v@ == t@,
{
    let n = t.unicode_len();
    let mut v: Vec<char> = Vec::new();
    let mut i: usize = 0;
    while i < n
        invariant
            i <= n,
            n == t@.len(),
            v@ == t@.take(i as int),
        decreases n - i,
    {
        v.push(t.get_char(i));
        proof {
            assert(v@ =~= t@.take(i + 1));
        }
        i = i + 1;
    }
    proof {
        assert(v@ =~= t@);
    }
    v
}

fn chars_eq(a: &Vec<char>, b: &Vec<char>) -> (r: bool)
    ensures
        r == (a@ == b@),
{
    if a.len() != b.len() {
        proof {
            assert(a@.len() != b@.len());
        }
        return false;
    }
    let mut i: usize = 0;
    while i < a.len()
        invariant
            i <= a@.len(),
            a@.len() == b@.len(),
            forall|k: int| 0 <= k < i ==> a@[k] == b@[k],
        decreases a@.len() - i,
    {
        if a[i] != b[i] {
            return false;
        }
        i = i + 1;
    }
    proof {
        assert(a@ =~= b@);
    }
    true
}

fn p_ws(s: &Vec<char>, i: usize) -> (j: usize)
    requires
        i <= s@.len(),
    ensures
        j as int == sp_ws(s@, i as int),
        i <= j <= s@.len(),
    decreases s@.len() - i,
{
    if i < s.len() {
        let c = s[i];
        if c == ' ' || c == '\n' || c == '\t' || c == '\r' {
            return p_ws(s, i + 1);
        }
    }
    i
}

fn p_char(s: &Vec<char>, i: usize, c: char) -> (r: Option<usize>)
    requires
        i <= s@.len(),
    ensures
        match r {
            Some(j) => sp_char(s@, i as int, c) == Some(j as int) && i < j <= s@.len(),
            None => sp_char(s@, i as int, c) is None,
        },
{
    let j = p_ws(s, i);
    if j < s.len() && s[j] == c {
        Some(j + 1)
    } else {
        None
    }
}

fn p_digits_end(s: &Vec<char>, i: usize) -> (e: usize)
    requires
        i <= s@.len(),
    ensures
        e as int == sp_digits_end(s@, i as int),
        i <= e <= s@.len(),
        forall|m: int| i <= m < e ==> is_digit(#[trigger] s@[m]),
        e == s@.len() || !is_digit(s@[e as int]),
    decreases s@.len() - i,
{
    if i < s.len() {
        let c = char_at(s, i);
        let u = c as u32;
        proof {
            assert('0' as u32 == 48);
            assert('9' as u32 == 57);
        }
        if 48 <= u && u <= 57 {
            let e = p_digits_end(s, i + 1);
            return e;
        }
        proof {
            assert(!is_digit(c));
        }
    }
    i
}

fn p_number(s: &Vec<char>, i: usize) -> (r: Option<(u32, usize)>)
    requires
        i <= s@.len(),
    ensures
        match r {
            Some(p) => sp_number(s@, i as int) == Some((p.0, p.1 as int)) && i < p.1 <= s@.len(),
            None => sp_number(s@, i as int) is None,
        },
{
    let j = p_ws(s, i);
    let e = p_digits_end(s, j);
    if e == j {
        return None;
    }
    let ghost digits = s@.subrange(j as int, e as int);
    proof {
        assert(all_digits(digits));
    }
    let mut acc: u32 = 0;
    let mut k = j;
    while k < e
        invariant
            i <= j < e <= s@.len(),
            j as int == sp_ws(s@, i as int),
            e as int == sp_digits_end(s@, j as int),
            j <= k <= e,
            digits == s@.subrange(j as int, e as int),
            all_digits(digits),
            forall|m: int| j <= m < e ==> is_digit(#[trigger] s@[m]),
            acc == digits_val(digits.take(k - j)),
        decreases e - k,
    {
        let c = char_at(s, k);
        let u = c as u32;
        proof {
            assert('0' as u32 == 48);
            assert('9' as u32 == 57);
            assert(is_digit(s@[k as int]));
            assert(48 <= u <= 57);
        }
        let d = u - 48;
        proof {
            assert(digits[k - j] == c);
            assert(is_digit(c));
            assert(d == crate::textutil::digit_val(c));
            assert(digits.take(k - j + 1).drop_last() =~= digits.take(k - j));
            assert(digits.take(k - j + 1).last() == c);
        }
        if acc > (u32::MAX - d) / 10 {
            proof {
                assert(digits_val(digits.take(k - j + 1)) > u32::MAX) by (nonlinear_arith)
                    requires
                        digits_val(digits.take(k - j + 1)) == acc * 10 + d,
                        acc > (u32::MAX - d) / 10,
                        0 <= d <= 9,
                        acc >= 0,
                ;
                crate::textutil::lemma_digits_val_prefix_le(digits, k - j + 1);
                assert(digits_val(digits) > u32::MAX);
                assert(digits_val(s@.subrange(j as int, e as int)) > u32::MAX);
                assert(sp_number(s@, i as int) is None);
            }
            return None;
        }
        proof {
            assert(acc * 10 + d <= u32::MAX) by (nonlinear_arith)
                requires
                    acc <= (u32::MAX - d) / 10,
                    0 <= d <= 9,
                    acc >= 0,
            ;
        }
        acc = acc * 10 + d;
        k = k + 1;
    }
    proof {
        assert(digits.take(e - j) =~= digits);
    }
    Some((acc, e))
}

/// Relies on char::from_u32: every value outside the surrogate range and
/// below 0x110000 is a Unicode scalar and converts to the char with that
/// code point.
#[verifier::external_body]
fn char_from_u32(v: u32) -> (c: char)
    requires
        v < 0xD800 || (0xE000 <= v && v < 0x110000),
    ensures
        c as u32 == v,
{
    match char::from_u32(v) {
        Some(c) => c,
        None => ' ',
    }
}

fn esc_shorthand_of(c: char) -> (r: Option<char>)
    ensures
        r == esc_shorthand(c),
{
    if c == '"' {
        Some('"')
    } else if c == '\\' {
        Some('\\')
    } else if c == '/' {
        Some('/')
    } else if c == 'n' {
        Some('\n')
    } else if c == 't' {
        Some('\t')
    } else if c == 'r' {
        Some('\r')
    } else if c == 'b' {
        Some('\u{8}')
    } else if c == 'f' {
        Some('\u{c}')
    } else {
        None
    }
}

fn hex_digit(c: char) -> (r: Option<u32>)
    ensures
        (is_hex(c) ==> r == Some((hex_val(c) as u32)) && hex_val(c) < 16),
        (!is_hex(c) ==> r is None),
{
    let u = c as u32;
    proof {
        assert('0' as u32 == 48);
        assert('9' as u32 == 57);
        assert('a' as u32 == 97);
        assert('f' as u32 == 102);
        assert('A' as u32 == 65);
        assert('F' as u32 == 70);
    }
    if 48 <= u && u <= 57 {
        Some(u - 48)
    } else if 97 <= u && u <= 102 {
        Some(u - 87)
    } else if 65 <= u && u <= 70 {
        Some(u - 55)
    } else {
        None
    }
}

fn p_str_body(s: &Vec<char>, i: usize) -> (r: Option<(Vec<char>, usize)>)
    requires
        i <= s@.len(),
    ensures
        match r {
            Some(p) => sp_str_body(s@, i as int) == Some((p.0@, p.1 as int)) && i < p.1
                <= s@.len(),
            None => sp_str_body(s@, i as int) is None,
        },
    decreases s@.len() - i,
{
    if i >= s.len() {
        return None;
    }
    let c = s[i];
    if c == '"' {
        let v: Vec<char> = Vec::new();
        proof {
            assert(v@ =~= Seq::<char>::empty());
        }
        Some((v, i + 1))
    } else if c == '\\' {
        if i + 1 >= s.len() {
            return None;
        }
        let next = char_at(s, i + 1);
        if let Some(esc) = esc_shorthand_of(next) {
            match p_str_body(s, i + 2) {
                Some(p) => {
                    let mut t = p.0;
                    let e = p.1;
                    let ghost t0 = t@;
                    t.insert(0, esc);
                    proof {
                        assert(t@ =~= seq![esc_shorthand(s@[i + 1])->Some_0] + t0);
                    }
                    Some((t, e))
                },
                None => None,
            }
        } else if next == 'u' && s.len() - i > 5 {
            let h1 = match hex_digit(char_at(s, i + 2)) {
                Some(h) => h,
                None => { return None },
            };
            let h2 = match hex_digit(char_at(s, i + 3)) {
                Some(h) => h,
                None => { return None },
            };
            let h3 = match hex_digit(char_at(s, i + 4)) {
                Some(h) => h,
                None => { return None },
            };
            let h4 = match hex_digit(char_at(s, i + 5)) {
                Some(h) => h,
                None => { return None },
            };
            let v = h1 * 4096 + h2 * 256 + h3 * 16 + h4;
            proof {
                assert(v == hex4_val(s@, i + 2));
            }
            if 0xD800 <= v && v <= 0xDFFF {
                return None;
            }
            let esc = char_from_u32(v);
            proof {
                vstd::utf8::char_u32_cast(esc, v);
                assert(esc == ((hex4_val(s@, i + 2) as u32) as char));
            }
            match p_str_body(s, i + 6) {
                Some(p) => {
                    let mut t = p.0;
                    let e = p.1;
                    let ghost t0 = t@;
                    t.insert(0, esc);
                    proof {
                        assert(t@ =~= seq![((hex4_val(s@, i + 2) as u32) as char)] + t0);
                    }
                    Some((t, e))
                },
                None => None,
            }
        } else {
            None
        }
    } else {
        match p_str_body(s, i + 1) {
            Some(p) => {
                let mut t = p.0;
                let e = p.1;
                let ghost t0 = t@;
                t.insert(0, c);
                proof {
                    assert(t@ =~= seq![s@[i as int]] + t0);
                }
                Some((t, e))
            },
            None => None,
        }
    }
}

fn p_string(s: &Vec<char>, i: usize) -> (r: Option<(Vec<char>, usize)>)
    requires
        i <= s@.len(),
    ensures
        match r {
            Some(p) => sp_string(s@, i as int) == Some((p.0@, p.1 as int)) && i < p.1
                <= s@.len(),
            None => sp_string(s@, i as int) is None,
        },
{
    let j = p_ws(s, i);
    if j < s.len() && s[j] == '"' {
        p_str_body(s, j + 1)
    } else {
        None
    }
}

fn p_status(s: &Vec<char>, i: usize) -> (r: Option<(Status, usize)>)
    requires
        i <= s@.len(),
    ensures
        match r {
            Some(p) => sp_status(s@, i as int) == Some((p.0, p.1 as int)) && i < p.1
                <= s@.len(),
            None => sp_status(s@, i as int) is None,
        },
{
    match p_string(s, i) {
        Some(p) => {
            let t = p.0;
            let e = p.1;
            proof {
                reveal_strlit("Open");
                assert("Open"@ =~= status_text(Status::Open));
                reveal_strlit("InProgress");
                assert("InProgress"@ =~= status_text(Status::InProgress));
                reveal_strlit("Resolved");
                assert("Resolved"@ =~= status_text(Status::Resolved));
                reveal_strlit("Closed");
                assert("Closed"@ =~= status_text(Status::Closed));
            }
            if chars_eq(&t, &str_chars("Open")) {
                Some((Status::Open, e))
            } else if chars_eq(&t, &str_chars("InProgress")) {
                Some((Status::InProgress, e))
            } else if chars_eq(&t, &str_chars("Resolved")) {
                Some((Status::Resolved, e))
            } else if chars_eq(&t, &str_chars("Closed")) {
                Some((Status::Closed, e))
            } else {
                None
            }
        },
        None => None,
    }
}

fn p_field(s: &Vec<char>, i: usize, key: &Vec<char>) -> (r: Option<usize>)
    requires
        i <= s@.len(),
    ensures
        match r {
            Some(j) => sp_field(s@, i as int, key@) == Some(j as int) && i < j <= s@.len(),
            None => sp_field(s@, i as int, key@) is None,
        },
{
    match p_string(s, i) {
        Some(p) => {
            if chars_eq(&p.0, key) {
                p_char(s, p.1, ':')
            } else {
                None
            }
        },
        None => None,
    }
}

fn digits_value_of(t: &Vec<char>) -> (r: Option<u32>)
    ensures
        (t@.len() > 0 && all_digits(t@) && digits_val(t@) <= u32::MAX) ==> r == Some(
            (digits_val(t@) as u32),
        ),
        !(t@.len() > 0 && all_digits(t@) && digits_val(t@) <= u32::MAX) ==> r is None,
{
    if t.len() == 0 {
        return None;
    }
    let mut acc: u32 = 0;
    let mut k: usize = 0;
    while k < t.len()
        invariant
            k <= t@.len(),
            all_digits(t@.take(k as int)),
            acc == digits_val(t@.take(k as int)),
        decreases t@.len() - k,
    {
        let c = char_at(t, k);
        let u = c as u32;
        proof {
            assert('0' as u32 == 48);
            assert('9' as u32 == 57);
        }
        if u < 48 || u > 57 {
            proof {
                assert(!is_digit(t@[k as int]));
            }
            return None;
        }
        let d = u - 48;
        proof {
            assert(is_digit(c));
            assert(d == crate::textutil::digit_val(c));
            assert(t@.take(k + 1).drop_last() =~= t@.take(k as int));
            assert(t@.take(k + 1).last() == c);
            assert(all_digits(t@.take(k + 1)));
        }
        if acc > (u32::MAX - d) / 10 {
            proof {
                assert(digits_val(t@.take(k + 1)) > u32::MAX) by (nonlinear_arith)
                    requires
                        digits_val(t@.take(k + 1)) == acc * 10 + d,
                        acc > (u32::MAX - d) / 10,
                        0 <= d <= 9,
                        acc >= 0,
                ;
                if all_digits(t@) && digits_val(t@) <= u32::MAX {
                    crate::textutil::lemma_digits_val_prefix_le(t@, k + 1);
                    assert(false);
                }
            }
            return None;
        }
        proof {
            assert(acc * 10 + d <= u32::MAX) by (nonlinear_arith)
                requires
                    acc <= (u32::MAX - d) / 10,
                    0 <= d <= 9,
                    acc >= 0,
            ;
        }
        acc = acc * 10 + d;
        k = k + 1;
    }
    proof {
        assert(t@.take(t@.len() as int) =~= t@);
    }
    Some(acc)
}

fn p_num_key(s: &Vec<char>, i: usize) -> (r: Option<(u32, usize)>)
    requires
        i <= s@.len(),
    ensures
        match r {
            Some(p) => sp_num_key(s@, i as int) == Some((p.0, p.1 as int)) && i < p.1
                <= s@.len(),
            None => sp_num_key(s@, i as int) is None,
        },
{
    match p_string(s, i) {
        Some(p) => match digits_value_of(&p.0) {
            Some(v) => Some((v, p.1)),
            None => None,
        },
        None => None,
    }
}

fn p_ids_ne(s: &Vec<char>, i: usize) -> (r: Option<(Vec<u32>, usize)>)
    requires
        i <= s@.len(),
    ensures
        match r {
            Some(p) => sp_ids_ne(s@, i as int) == Some((p.0@, p.1 as int)) && i < p.1
                <= s@.len(),
            None => sp_ids_ne(s@, i as int) is None,
        },
    decreases s@.len() - i,
{
    match p_number(s, i) {
        Some(q) => {
            let v = q.0;
            let e = q.1;
            let j = p_ws(s, e);
            if j < s.len() && s[j] == ',' {
                match p_ids_ne(s, j + 1) {
                    Some(p) => {
                        let mut rest = p.0;
                        let e2 = p.1;
                        let ghost r0 = rest@;
                        rest.insert(0, v);
                        proof {
                            assert(rest@ =~= seq![v] + r0);
                        }
                        Some((rest, e2))
                    },
                    None => None,
                }
            } else if j < s.len() && s[j] == ']' {
                let mut one: Vec<u32> = Vec::new();
                one.push(v);
                proof {
                    assert(one@ =~= seq![v]);
                }
                Some((one, j + 1))
            } else {
                None
            }
        },
        None => None,
    }
}

fn p_ids(s: &Vec<char>, i: usize) -> (r: Option<(Vec<u32>, usize)>)
    requires
        i <= s@.len(),
    ensures
        match r {
            Some(p) => sp_ids(s@, i as int) == Some((p.0@, p.1 as int)) && i < p.1 <= s@.len(),
            None => sp_ids(s@, i as int) is None,
        },
{
    match p_char(s, i, '[') {
        Some(j) => {
            let k = p_ws(s, j);
            if k < s.len() && s[k] == ']' {
                let v: Vec<u32> = Vec::new();
                proof {
                    assert(v@ =~= Seq::<u32>::empty());
                }
                Some((v, k + 1))
            } else {
                p_ids_ne(s, j)
            }
        },
        None => None,
    }
}


fn p_story(s: &Vec<char>, i: usize) -> (r: Option<(Story, usize)>)
    requires
        i <= s@.len(),
    ensures
        match r {
            Some(p) => sp_story(s@, i as int) == Some((p.0@, p.1 as int)) && i < p.1
                <= s@.len(),
            None => sp_story(s@, i as int) is None,
        },
{
    let key_name = str_chars("name");
    let key_desc = str_chars("description");
    let key_status = str_chars("status");
    proof {
        reveal_strlit("name");
        assert("name"@ =~= name_text());
        reveal_strlit("description");
        assert("description"@ =~= description_text());
        reveal_strlit("status");
        assert("status"@ =~= status_key_text());
    }
    let a = match p_char(s, i, '{') {
        Some(a) => a,
        None => { return None },
    };
    let b = match p_field(s, a, &key_name) {
        Some(b) => b,
        None => { return None },
    };
    let nm = match p_string(s, b) {
        Some(p) => p,
        None => { return None },
    };
    let c = nm.1;
    let d = match p_char(s, c, ',') {
        Some(d) => d,
        None => { return None },
    };
    let e = match p_field(s, d, &key_desc) {
        Some(e) => e,
        None => { return None },
    };
    let ds = match p_string(s, e) {
        Some(p) => p,
        None => { return None },
    };
    let f = ds.1;
    let g = match p_char(s, f, ',') {
        Some(g) => g,
        None => { return None },
    };
    let h = match p_field(s, g, &key_status) {
        Some(h) => h,
        None => { return None },
    };
    let st = match p_status(s, h) {
        Some(p) => p,
        None => { return None },
    };
    let k = st.1;
    let m = match p_char(s, k, '}') {
        Some(m) => m,
        None => { return None },
    };
    let story = Story {
        name: chars_to_string(&nm.0),
        description: chars_to_string(&ds.0),
        status: st.0,
    };
    proof {
        assert(story@ == (StoryView { name: nm.0@, description: ds.0@, status: st.0 }));
    }
    Some((story, m))
}

fn p_epic(s: &Vec<char>, i: usize) -> (r: Option<(Epic, usize)>)
    requires
        i <= s@.len(),
    ensures
        match r {
            Some(p) => sp_epic(s@, i as int) == Some((p.0@, p.1 as int)) && i < p.1
                <= s@.len(),
            None => sp_epic(s@, i as int) is None,
        },
{
    let key_name = str_chars("name");
    let key_desc = str_chars("description");
    let key_status = str_chars("status");
    let key_stories = str_chars("stories");
    proof {
        reveal_strlit("name");
        assert("name"@ =~= name_text());
        reveal_strlit("description");
        assert("description"@ =~= description_text());
        reveal_strlit("status");
        assert("status"@ =~= status_key_text());
        reveal_strlit("stories");
        assert("stories"@ =~= stories_text());
    }
    let a = match p_char(s, i, '{') {
        Some(a) => a,
        None => { return None },
    };
    let b = match p_field(s, a, &key_name) {
        Some(b) => b,
        None => { return None },
    };
    let nm = match p_string(s, b) {
        Some(p) => p,
        None => { return None },
    };
    let c = nm.1;
    let d = match p_char(s, c, ',') {
        Some(d) => d,
        None => { return None },
    };
    let e = match p_field(s, d, &key_desc) {
        Some(e) => e,
        None => { return None },
    };
    let ds = match p_string(s, e) {
        Some(p) => p,
        None => { return None },
    };
    let f = ds.1;
    let g = match p_char(s, f, ',') {
        Some(g) => g,
        None => { return None },
    };
    let h = match p_field(s, g, &key_status) {
        Some(h) => h,
        None => { return None },
    };
    let st = match p_status(s, h) {
        Some(p) => p,
        None => { return None },
    };
    let k = st.1;
    let m = match p_char(s, k, ',') {
        Some(m) => m,
        None => { return None },
    };
    let n = match p_field(s, m, &key_stories) {
        Some(n) => n,
        None => { return None },
    };
    let ids = match p_ids(s, n) {
        Some(p) => p,
        None => { return None },
    };
    let p2 = ids.1;
    let q = match p_char(s, p2, '}') {
        Some(q) => q,
        None => { return None },
    };
    let epic = Epic {
        name: chars_to_string(&nm.0),
        description: chars_to_string(&ds.0),
        status: st.0,
        stories: ids.0,
    };
    proof {
        assert(epic@ == (EpicView {
            name: nm.0@,
            description: ds.0@,
            status: st.0,
            stories: epic.stories@,
        }));
    }
    Some((epic, q))
}

/// The entry list of the epics object as models, in file order.
pub open spec fn epic_entries_view(v: Seq<(u32, Epic)>) -> Seq<(u32, EpicView)> {
    Seq::new(v.len(), |k: int| (v[k].0, v[k].1@))
}

/// The entry list of the stories object as models, in file order.
pub open spec fn story_entries_view(v: Seq<(u32, Story)>) -> Seq<(u32, StoryView)> {
    Seq::new(v.len(), |k: int| (v[k].0, v[k].1@))
}

fn p_epic_entries_ne(s: &Vec<char>, i: usize) -> (r: Option<(Vec<(u32, Epic)>, usize)>)
    requires
        i <= s@.len(),
    ensures
        match r {
            Some(p) => sp_epic_entries_ne(s@, i as int) == Some(
                (epic_entries_view(p.0@), p.1 as int),
            ) && i < p.1 <= s@.len(),
            None => sp_epic_entries_ne(s@, i as int) is None,
        },
    decreases s@.len() - i,
{
    let ik = match p_num_key(s, i) {
        Some(p) => p,
        None => { return None },
    };
    let id = ik.0;
    let e = ik.1;
    let f = match p_char(s, e, ':') {
        Some(f) => f,
        None => { return None },
    };
    let ev = match p_epic(s, f) {
        Some(p) => p,
        None => { return None },
    };
    let g = ev.1;
    let j = p_ws(s, g);
    if j < s.len() && s[j] == ',' {
        match p_epic_entries_ne(s, j + 1) {
            Some(p) => {
                let mut rest = p.0;
                let e2 = p.1;
                let ghost r0 = rest@;
                rest.insert(0, (id, ev.0));
                proof {
                    assert(epic_entries_view(rest@) =~= seq![(id, ev.0@)] + epic_entries_view(
                        r0,
                    ));
                }
                Some((rest, e2))
            },
            None => None,
        }
    } else if j < s.len() && s[j] == '}' {
        let mut one: Vec<(u32, Epic)> = Vec::new();
        one.push((id, ev.0));
        proof {
            assert(epic_entries_view(one@) =~= seq![(id, ev.0@)]);
        }
        Some((one, j + 1))
    } else {
        None
    }
}

fn p_story_entries_ne(s: &Vec<char>, i: usize) -> (r: Option<(Vec<(u32, Story)>, usize)>)
    requires
        i <= s@.len(),
    ensures
        match r {
            Some(p) => sp_story_entries_ne(s@, i as int) == Some(
                (story_entries_view(p.0@), p.1 as int),
            ) && i < p.1 <= s@.len(),
            None => sp_story_entries_ne(s@, i as int) is None,
        },
    decreases s@.len() - i,
{
    let ik = match p_num_key(s, i) {
        Some(p) => p,
        None => { return None },
    };
    let id = ik.0;
    let e = ik.1;
    let f = match p_char(s, e, ':') {
        Some(f) => f,
        None => { return None },
    };
    let sv = match p_story(s, f) {
        Some(p) => p,
        None => { return None },
    };
    let g = sv.1;
    let j = p_ws(s, g);
    if j < s.len() && s[j] == ',' {
        match p_story_entries_ne(s, j + 1) {
            Some(p) => {
                let mut rest = p.0;
                let e2 = p.1;
                let ghost r0 = rest@;
                rest.insert(0, (id, sv.0));
                proof {
                    assert(story_entries_view(rest@) =~= seq![(id, sv.0@)] + story_entries_view(
                        r0,
                    ));
                }
                Some((rest, e2))
            },
            None => None,
        }
    } else if j < s.len() && s[j] == '}' {
        let mut one: Vec<(u32, Story)> = Vec::new();
        one.push((id, sv.0));
        proof {
            assert(story_entries_view(one@) =~= seq![(id, sv.0@)]);
        }
        Some((one, j + 1))
    } else {
        None
    }
}

fn p_epic_entries(s: &Vec<char>, i: usize) -> (r: Option<(Vec<(u32, Epic)>, usize)>)
    requires
        i <= s@.len(),
    ensures
        match r {
            Some(p) => sp_epic_entries(s@, i as int) == Some(
                (epic_entries_view(p.0@), p.1 as int),
            ) && i < p.1 <= s@.len(),
            None => sp_epic_entries(s@, i as int) is None,
        },
{
    let k = p_ws(s, i);
    if k < s.len() && s[k] == '}' {
        let v: Vec<(u32, Epic)> = Vec::new();
        proof {
            assert(epic_entries_view(v@) =~= Seq::<(u32, EpicView)>::empty());
        }
        Some((v, k + 1))
    } else {
        p_epic_entries_ne(s, i)
    }
}

fn p_story_entries(s: &Vec<char>, i: usize) -> (r: Option<(Vec<(u32, Story)>, usize)>)
    requires
        i <= s@.len(),
    ensures
        match r {
            Some(p) => sp_story_entries(s@, i as int) == Some(
                (story_entries_view(p.0@), p.1 as int),
            ) && i < p.1 <= s@.len(),
            None => sp_story_entries(s@, i as int) is None,
        },
{
    let k = p_ws(s, i);
    if k < s.len() && s[k] == '}' {
        let v: Vec<(u32, Story)> = Vec::new();
        proof {
            assert(story_entries_view(v@) =~= Seq::<(u32, StoryView)>::empty());
        }
        Some((v, k + 1))
    } else {
        p_story_entries_ne(s, i)
    }
}

fn p_state(s: &Vec<char>, i: usize) -> (r: Option<(u32, Vec<(u32, Epic)>, Vec<(u32, Story)>, usize)>)
    requires
        i <= s@.len(),
    ensures
        match r {
            Some(p) => sp_state(s@, i as int) == Some(
                (
                    ParsedState {
                        last_item_id: p.0,
                        epics: epic_entries_view(p.1@),
                        stories: story_entries_view(p.2@),
                    },
                    p.3 as int,
                ),
            ) && i < p.3 <= s@.len(),
            None => sp_state(s@, i as int) is None,
        },
{
    let key_last = str_chars("last_item_id");
    let key_epics = str_chars("epics");
    let key_stories = str_chars("stories");
    proof {
        reveal_strlit("last_item_id");
        assert("last_item_id"@ =~= last_text());
        reveal_strlit("epics");
        assert("epics"@ =~= epics_text());
        reveal_strlit("stories");
        assert("stories"@ =~= stories_text());
    }
    let a = match p_char(s, i, '{') {
        Some(a) => a,
        None => { return None },
    };
    let b = match p_field(s, a, &key_last) {
        Some(b) => b,
        None => { return None },
    };
    let lastp = match p_number(s, b) {
        Some(p) => p,
        None => { return None },
    };
    let c = lastp.1;
    let d = match p_char(s, c, ',') {
        Some(d) => d,
        None => { return None },
    };
    let e = match p_field(s, d, &key_epics) {
        Some(e) => e,
        None => { return None },
    };
    let f = match p_char(s, e, '{') {
        Some(f) => f,
        None => { return None },
    };
    let epsp = match p_epic_entries(s, f) {
        Some(p) => p,
        None => { return None },
    };
    let g = epsp.1;
    let h = match p_char(s, g, ',') {
        Some(h) => h,
        None => { return None },
    };
    let k = match p_field(s, h, &key_stories) {
        Some(k) => k,
        None => { return None },
    };
    let m = match p_char(s, k, '{') {
        Some(m) => m,
        None => { return None },
    };
    let stsp = match p_story_entries(s, m) {
        Some(p) => p,
        None => { return None },
    };
    let n = stsp.1;
    let p2 = match p_char(s, n, '}') {
        Some(p2) => p2,
        None => { return None },
    };
    Some((lastp.0, epsp.0, stsp.0, p2))
}

/// Parses the stored text into an aggregate state. Text that the stored
/// shape does not cover fails with `CorruptState`, and nothing else does.
pub fn from_json(text: &str) -> (r: Result<DBState, Error>)
    ensures
        match r {
            Ok(state) => {
                &&& sp_doc(text@) matches Some(ps)
                &&& state@.last_item_id == sp_doc(text@)->Some_0.last_item_id
                &&& state@.epics == map_of(sp_doc(text@)->Some_0.epics)
                &&& state@.stories == map_of(sp_doc(text@)->Some_0.stories)
            },
            Err(e) => e == Error::CorruptState && sp_doc(text@) is None,
        },
{
    let s = str_chars(text);
    let parsed = match p_state(&s, 0) {
        Some(p) => p,
        None => { return Err(Error::CorruptState) },
    };
    let last = parsed.0;
    let eps = parsed.1;
    let sts = parsed.2;
    let e = parsed.3;
    let j = p_ws(&s, e);
    if j < s.len() {
        return Err(Error::CorruptState);
    }
    let ghost ev = epic_entries_view(eps@);
    let mut epics: IdMap<Epic> = IdMap::new();
    proof {
        assert(epics@ =~= map_of(ev.take(0)));
    }
    let mut k: usize = 0;
    while k < eps.len()
        invariant
            k <= eps@.len(),
            ev == epic_entries_view(eps@),
            epics@ == map_of(ev.take(k as int)),
        decreases eps@.len() - k,
    {
        let id = eps[k].0;
        let ep = eps[k].1.clone();
        proof {
            assert(ev[k as int] == (eps@[k as int].0, eps@[k as int].1@));
        }
        epics.insert(id, ep);
        proof {
            assert(ev.take(k + 1).drop_last() =~= ev.take(k as int));
            assert(ev.take(k + 1).last() == ev[k as int]);
            assert(epics@ == map_of(ev.take(k + 1)));
        }
        k = k + 1;
    }
    proof {
        assert(ev.take(eps@.len() as int) =~= ev);
    }
    let ghost sv = story_entries_view(sts@);
    let mut stories: IdMap<Story> = IdMap::new();
    proof {
        assert(stories@ =~= map_of(sv.take(0)));
    }
    let mut k2: usize = 0;
    while k2 < sts.len()
        invariant
            k2 <= sts@.len(),
            sv == story_entries_view(sts@),
            stories@ == map_of(sv.take(k2 as int)),
        decreases sts@.len() - k2,
    {
        let id = sts[k2].0;
        let st = sts[k2].1.clone();
        proof {
            assert(sv[k2 as int] == (sts@[k2 as int].0, sts@[k2 as int].1@));
        }
        stories.insert(id, st);
        proof {
            assert(sv.take(k2 + 1).drop_last() =~= sv.take(k2 as int));
            assert(sv.take(k2 + 1).last() == sv[k2 as int]);
            assert(stories@ == map_of(sv.take(k2 + 1)));
        }
        k2 = k2 + 1;
    }
    proof {
        assert(sv.take(sts@.len() as int) =~= sv);
    }
    Ok(DBState { last_item_id: last, epics, stories })
}

/// Round trip at the store level: the text `to_json` writes for any
/// aggregate state is accepted by the parser, and the value read back is
/// equal to the original in all fields. Together with the contracts of
/// `to_json` and `from_json` this pins the write-then-read cycle down.
pub proof fn lemma_round_trip(state: DBState)
    ensures
        ({
            let doc = sp_doc(
                print_state(
                    state@.last_item_id,
                    state.epics.entry_seq(),
                    state.stories.entry_seq(),
                ),
            );
            &&& doc is Some
            &&& doc->Some_0.last_item_id == state@.last_item_id
            &&& map_of(doc->Some_0.epics) == state@.epics
            &&& map_of(doc->Some_0.stories) == state@.stories
        }),
{
    lemma_print_parses(
        state@.last_item_id,
        state.epics.entry_seq(),
        state.stories.entry_seq(),
    );
    crate::idmap::lemma_view_is_map_of(&state.epics);
    crate::idmap::lemma_view_is_map_of(&state.stories);
}

} // verus!
