//! The isolated HOME directory of a seat.

use vstd::prelude::*;

use crate::text::decimal_string;
use crate::text::replace_all;

verus! {

/// Characters that may stand in a directory name made from an owner.
pub open spec fn is_safe(c: char) -> bool {
    ||| 'a' <= c <= 'z'
    ||| 'A' <= c <= 'Z'
    ||| '0' <= c <= '9'
    ||| c == '-'
    ||| c == '_'
    ||| c == '.'
}

/// Whether `name` can name a directory's child: the empty name cannot, and `.` and `..`
/// name the directory itself and its parent.
pub open spec fn names_child(name: Seq<char>) -> bool {
    name.len() > 0 && name != "."@ && name != ".."@
}

/// The directory name of `owner`: its safe characters in order, or `default` where these
/// do not name a child.
pub open spec fn sanitized(owner: Seq<char>) -> Seq<char> {
    let kept = owner.filter(|c: char| is_safe(c));
    if names_child(kept) {
        kept
    } else {
        "default"@
    }
}

fn safe_char(c: char) -> (r: bool)
    ensures
        r == is_safe(c),
{
    ('a' <= c && c <= 'z') || ('A' <= c && c <= 'Z') || ('0' <= c && c <= '9') || c == '-' || c
        == '_' || c == '.'
}

/// Filesystem-safe, stable directory component from a seat owner (a configured
/// user name, or a raw cert fingerprint / `uniqueid` when unmapped). Keeps ASCII
/// alphanumerics plus `-`, `_`, `.` so friendly user names stay readable; falls
/// back to "default" where that leaves nothing, or a name that leads out of its directory.
pub fn sanitize_owner(owner: &str) -> (r: String)
    ensures
        r@ == sanitized(owner@),
{
    let mut kept = String::new();
    let ghost pred = |c: char| is_safe(c);
    proof {
        reveal(Seq::filter);
    }
    for c in it: owner.chars()
        invariant
            kept@ == it.seq().take(it.index() as int).filter(pred),
            it.seq() == owner@,
            pred == (|c: char| is_safe(c)),
    {
        proof {
            reveal(Seq::filter);
            let done = it.seq().take(it.index() + 1);
            assert(done.drop_last() =~= it.seq().take(it.index() as int));
        }
        if safe_char(c) {
            kept.push(c);
        }
    }
    proof {
        assert(owner@.take(owner@.len() as int) =~= owner@);
    }
    let this_dir = ".".to_owned();
    let parent_dir = "..".to_owned();
    if kept.as_str().is_empty() || kept == this_dir || kept == parent_dir {
        "default".to_owned()
    } else {
        kept
    }
}

/// The text that stands for a GPU pool slot: its number, or `single` without a pool.
pub open spec fn seat_label(gpu_index: Option<usize>) -> Seq<char> {
    match gpu_index {
        Some(i) => crate::text::decimal(i as nat),
        None => "single"@,
    }
}

/// The HOME that `template` gives to `owner` on the pool slot `gpu_index`.
pub open spec fn home(template: Seq<char>, gpu_index: Option<usize>, owner: Seq<char>) -> Seq<char> {
    crate::text::replaced(
        crate::text::replaced(template, "{seat}"@, seat_label(gpu_index)),
        "{owner}"@,
        sanitized(owner),
    )
}

/// Expand a seat HOME template. `{owner}` -> sanitized client identity (stable
/// per client, so a person keeps their profile whichever GPU is free); `{seat}`
/// -> GPU pool slot (hardware-tied).
pub fn seat_home_path(template: &str, gpu_index: Option<usize>, owner: &str) -> (r: String)
    ensures
        r@ == home(template@, gpu_index, owner@),
{
    let seat = match gpu_index {
        Some(i) => decimal_string(i),
        None => "single".to_owned(),
    };
    let name = sanitize_owner(owner);
    proof {
        reveal_strlit("{seat}");
        reveal_strlit("{owner}");
    }
    let with_seat = replace_all(template, "{seat}", seat.as_str());
    replace_all(with_seat.as_str(), "{owner}", name.as_str())
}

proof fn lemma_default_is_safe()
    ensures
        names_child("default"@),
        forall|i: int| 0 <= i < "default"@.len() ==> is_safe(#[trigger] "default"@[i]),
{
    reveal_strlit("default");
    reveal_strlit(".");
    reveal_strlit("..");
}

/// Keeping what is safe of a safe text keeps all of it.
proof fn lemma_filter_safe(s: Seq<char>)
    requires
        forall|i: int| 0 <= i < s.len() ==> is_safe(#[trigger] s[i]),
    ensures
        s.filter(|c: char| is_safe(c)) == s,
    decreases s.len(),
{
    reveal(Seq::filter);
    if s.len() > 0 {
        lemma_filter_safe(s.drop_last());
        assert(is_safe(s[s.len() - 1]));
        assert(s.drop_last().push(s.last()) =~= s);
    }
}

/// The directory name of an owner, whatever the owner is, is a filesystem-safe component:
/// it has ASCII letters, digits, `-`, `_` and `.` only, so no path separator, NUL, white
/// space or brace of a placeholder, and it names a child of the directory that it is
/// joined to.
pub proof fn law_sanitized_is_safe(owner: Seq<char>)
    ensures
        sanitized(owner).len() > 0,
        sanitized(owner) != "."@,
        sanitized(owner) != ".."@,
        forall|i: int| 0 <= i < sanitized(owner).len() ==> is_safe(#[trigger] sanitized(owner)[i]),
        !sanitized(owner).contains('/'),
        !sanitized(owner).contains('\0'),
        !sanitized(owner).contains(' '),
        !sanitized(owner).contains('{'),
        !sanitized(owner).contains('}'),
{
    let pred = |c: char| is_safe(c);
    let kept = owner.filter(pred);
    lemma_default_is_safe();
    assert forall|i: int| 0 <= i < kept.len() implies is_safe(#[trigger] kept[i]) by {
        owner.lemma_filter_pred(pred, i);
        assert(pred(kept[i]));
    }
}

/// Friendly user names stay readable: a name that has safe characters only is kept as it
/// is, but for the two that lead out of their directory.
pub proof fn law_safe_owner_is_kept(owner: Seq<char>)
    requires
        names_child(owner),
        forall|i: int| 0 <= i < owner.len() ==> is_safe(#[trigger] owner[i]),
    ensures
        sanitized(owner) == owner,
{
    lemma_filter_safe(owner);
}

/// A directory name is stable: made from itself once more it is the same.
pub proof fn law_sanitized_twice(owner: Seq<char>)
    ensures
        sanitized(sanitized(owner)) == sanitized(owner),
{
    law_sanitized_is_safe(owner);
    law_safe_owner_is_kept(sanitized(owner));
}

/// A client keeps its profile whichever GPU is free: without `{seat}` in the template, its
/// HOME is the same on every slot.
pub proof fn law_home_follows_owner(
    template: Seq<char>,
    a: Option<usize>,
    b: Option<usize>,
    owner: Seq<char>,
)
    requires
        !crate::text::occurs("{seat}"@, template),
    ensures
        home(template, a, owner) == home(template, b, owner),
{
    crate::text::lemma_replaced_absent(template, "{seat}"@, seat_label(a));
    crate::text::lemma_replaced_absent(template, "{seat}"@, seat_label(b));
}

/// The label of a slot is not empty, and neither has what `{owner}` begins with nor begins
/// with what `{owner}` has.
proof fn lemma_label(gpu_index: Option<usize>)
    ensures
        seat_label(gpu_index).len() > 0,
        !"{owner}"@.contains(seat_label(gpu_index)[0]),
        "{owner}"@.len() > 0,
        !seat_label(gpu_index).contains("{owner}"@[0]),
{
    reveal_strlit("{owner}");
    reveal_strlit("single");
    if let Some(i) = gpu_index {
        crate::text::lemma_decimal_digits(i as nat);
    }
}

/// Different slots have different labels.
proof fn lemma_label_injective(a: Option<usize>, b: Option<usize>)
    requires
        seat_label(a) == seat_label(b),
    ensures
        a == b,
{
    reveal_strlit("single");
    assert("single"@[0] == 's');
    match (a, b) {
        (Some(i), Some(j)) => crate::text::lemma_decimal_injective(i as nat, j as nat),
        (Some(i), None) => {
            crate::text::lemma_decimal_digits(i as nat);
            assert(crate::text::decimal(i as nat)[0] == 's');
        },
        (None, Some(j)) => {
            crate::text::lemma_decimal_digits(j as nat);
            assert(crate::text::decimal(j as nat)[0] == 's');
        },
        (None, None) => {},
    }
}

/// A HOME is tied to the GPU slot: without `{owner}` in the template, it is the same for
/// every client on that slot.
pub proof fn law_home_follows_seat(
    template: Seq<char>,
    gpu_index: Option<usize>,
    a: Seq<char>,
    b: Seq<char>,
)
    requires
        !crate::text::occurs("{owner}"@, template),
    ensures
        home(template, gpu_index, a) == home(template, gpu_index, b),
        home(template, gpu_index, a) == crate::text::replaced(
            template,
            "{seat}"@,
            seat_label(gpu_index),
        ),
{
    let label = seat_label(gpu_index);
    let with_seat = crate::text::replaced(template, "{seat}"@, label);
    lemma_label(gpu_index);
    crate::text::lemma_replaced_keeps_absent(template, "{seat}"@, label, "{owner}"@);
    crate::text::lemma_replaced_absent(with_seat, "{owner}"@, sanitized(a));
    crate::text::lemma_replaced_absent(with_seat, "{owner}"@, sanitized(b));
}

/// Hardware-tied homes are isolated: with `{seat}` and without `{owner}` in the template,
/// different slots have different homes, whoever their owners are.
pub proof fn law_seat_homes_differ(
    template: Seq<char>,
    a: Option<usize>,
    b: Option<usize>,
    owner_a: Seq<char>,
    owner_b: Seq<char>,
)
    requires
        crate::text::occurs("{seat}"@, template),
        !crate::text::occurs("{owner}"@, template),
        a != b,
    ensures
        home(template, a, owner_a) != home(template, b, owner_b),
{
    law_home_follows_seat(template, a, owner_a, owner_a);
    law_home_follows_seat(template, b, owner_b, owner_b);
    if home(template, a, owner_a) == home(template, b, owner_b) {
        reveal_strlit("{seat}");
        crate::text::lemma_replaced_injective(template, "{seat}"@, seat_label(a), seat_label(b));
        lemma_label_injective(a, b);
    }
}

/// Homes by client are isolated: with `{owner}` and without `{seat}` in the template,
/// clients with different directory names have different homes, whatever their slots are.
pub proof fn law_owner_homes_differ(
    template: Seq<char>,
    a: Option<usize>,
    b: Option<usize>,
    owner_a: Seq<char>,
    owner_b: Seq<char>,
)
    requires
        crate::text::occurs("{owner}"@, template),
        !crate::text::occurs("{seat}"@, template),
        sanitized(owner_a) != sanitized(owner_b),
    ensures
        home(template, a, owner_a) != home(template, b, owner_b),
{
    crate::text::lemma_replaced_absent(template, "{seat}"@, seat_label(a));
    crate::text::lemma_replaced_absent(template, "{seat}"@, seat_label(b));
    if home(template, a, owner_a) == home(template, b, owner_b) {
        reveal_strlit("{owner}");
        crate::text::lemma_replaced_injective(
            template,
            "{owner}"@,
            sanitized(owner_a),
            sanitized(owner_b),
        );
    }
}

/// A HOME is as deep as its template: no client and no slot adds a path separator to it or
/// takes one away.
pub proof fn law_home_is_as_deep_as_template(
    template: Seq<char>,
    gpu_index: Option<usize>,
    owner: Seq<char>,
)
    ensures
        crate::text::count(home(template, gpu_index, owner), '/') == crate::text::count(
            template,
            '/',
        ),
{
    let label = seat_label(gpu_index);
    let with_seat = crate::text::replaced(template, "{seat}"@, label);
    reveal_strlit("{seat}");
    reveal_strlit("{owner}");
    reveal_strlit("single");
    if let Some(i) = gpu_index {
        crate::text::lemma_decimal_digits(i as nat);
    }
    law_sanitized_is_safe(owner);
    crate::text::lemma_replaced_count(template, "{seat}"@, label, '/');
    crate::text::lemma_replaced_count(with_seat, "{owner}"@, sanitized(owner), '/');
}

/// An unsafe character adds nothing: with it taken out of an owner, wherever it stands, the
/// directory name is the same. Safe are ASCII letters and digits, `-`, `_` and `.`.
pub proof fn law_unsafe_character_adds_nothing(before: Seq<char>, c: char, after: Seq<char>)
    requires
        !('a' <= c <= 'z' || 'A' <= c <= 'Z' || '0' <= c <= '9' || c == '-' || c == '_' || c
            == '.'),
    ensures
        sanitized(before + seq![c] + after) == sanitized(before + after),
{
    let pred = |c: char| is_safe(c);
    reveal_with_fuel(Seq::filter, 2);
    Seq::filter_distributes_over_add(before, after, pred);
    Seq::filter_distributes_over_add(before, seq![c], pred);
    Seq::filter_distributes_over_add(before + seq![c], after, pred);
    assert(seq![c].drop_last() =~= Seq::<char>::empty());
    assert(seq![c].filter(pred) =~= Seq::<char>::empty());
    assert(before.filter(pred) + Seq::<char>::empty() =~= before.filter(pred));
}

/// No safe character is lost: the directory name of an owner has each character of it that
/// is an ASCII letter or digit, `-`, `_` or `.`, and no other, in order; it is `default`
/// only where these are none, `.` or `..`. `kept` are their positions.
pub proof fn law_directory_name_has_the_safe_characters(owner: Seq<char>) -> (kept: Seq<int>)
    ensures
        forall|k: int| 0 <= k < kept.len() ==> 0 <= #[trigger] kept[k] < owner.len(),
        forall|k: int, l: int| 0 <= k < l < kept.len() ==> kept[k] < kept[l],
        forall|i: int|
            0 <= i < owner.len() ==> (#[trigger] kept.contains(i) <==> ('a' <= owner[i] <= 'z' || 'A'
                <= owner[i] <= 'Z' || '0' <= owner[i] <= '9' || owner[i] == '-' || owner[i] == '_'
                || owner[i] == '.')),
        ({
            let name = kept.map_values(|i: int| owner[i]);
            sanitized(owner) == (if name == ""@ || name == "."@ || name == ".."@ {
                "default"@
            } else {
                name
            })
        }),
{
    let kept = lemma_safe_positions(owner);
    reveal_strlit("");
    assert(""@ =~= Seq::<char>::empty());
    let name = kept.map_values(|i: int| owner[i]);
    assert(name.len() == 0 ==> name =~= ""@);
    kept
}

/// The positions of the safe characters of a text.
proof fn lemma_safe_positions(s: Seq<char>) -> (kept: Seq<int>)
    ensures
        forall|k: int| 0 <= k < kept.len() ==> 0 <= #[trigger] kept[k] < s.len(),
        forall|k: int, l: int| 0 <= k < l < kept.len() ==> kept[k] < kept[l],
        forall|i: int| 0 <= i < s.len() ==> (#[trigger] kept.contains(i) <==> is_safe(s[i])),
        s.filter(|c: char| is_safe(c)) == kept.map_values(|i: int| s[i]),
    decreases s.len(),
{
    reveal(Seq::filter);
    if s.len() == 0 {
        let kept = Seq::<int>::empty();
        assert(s.filter(|c: char| is_safe(c)) =~= kept.map_values(|i: int| s[i]));
        kept
    } else {
        let n = s.len() - 1;
        let before = lemma_safe_positions(s.drop_last());
        assert forall|i: int| 0 <= i < n implies (#[trigger] before.contains(i) <==> is_safe(
            s[i],
        )) by {
            assert(s.drop_last()[i] == s[i]);
        }
        assert(before.map_values(|i: int| s.drop_last()[i]) =~= before.map_values(|i: int| s[i]));
        if is_safe(s.last()) {
            let kept = before.push(n);
            assert(kept.map_values(|i: int| s[i]) =~= before.map_values(|i: int| s[i]).push(s[n]));
            assert(kept[before.len() as int] == n);
            assert forall|i: int| 0 <= i < s.len() implies (#[trigger] kept.contains(i)
                <==> is_safe(s[i])) by {
                if before.contains(i) {
                    let k = before.index_of(i);
                    assert(kept[k] == i);
                }
                if i < n && kept.contains(i) {
                    let k = kept.index_of(i);
                    assert(before[k] == i);
                }
            }
            kept
        } else {
            assert(!before.contains(n));
            before
        }
    }
}

/// Text without the first character of the pattern passes unchanged.
proof fn lemma_replaced_passes(a: Seq<char>, t: Seq<char>, pat: Seq<char>, with: Seq<char>)
    requires
        pat.len() > 0,
        !a.contains(pat[0]),
    ensures
        crate::text::replaced(a + t, pat, with) == a + crate::text::replaced(t, pat, with),
    decreases a.len(),
{
    if a.len() == 0 {
        assert(a + t =~= t);
        assert(a + crate::text::replaced(t, pat, with) =~= crate::text::replaced(t, pat, with));
    } else {
        let s = a + t;
        assert(s[0] == a[0]);
        if pat.is_prefix_of(s) {
            assert(pat[0] == s.subrange(0, pat.len() as int)[0]);
            assert(a.contains(a[0]));
        }
        crate::text::lemma_replaced_step(s, pat, with);
        assert(s.skip(1) =~= a.skip(1) + t);
        assert forall|i: int| 0 <= i < a.skip(1).len() implies a.skip(1)[i] != pat[0] by {
            assert(a.contains(a[i + 1]));
        }
        lemma_replaced_passes(a.skip(1), t, pat, with);
        assert(seq![a[0]] + (a.skip(1) + crate::text::replaced(t, pat, with)) =~= a
            + crate::text::replaced(t, pat, with));
    }
}

/// A template is expanded from left to right: each `{seat}` gives the number of the slot, or
/// `single` without one, each `{owner}` the client's directory name, and every other
/// character itself.
pub proof fn law_template_is_expanded_left_to_right(
    rest: Seq<char>,
    c: char,
    gpu_index: Option<usize>,
    owner: Seq<char>,
)
    ensures
        home(Seq::empty(), gpu_index, owner) == Seq::<char>::empty(),
        home("{seat}"@ + rest, gpu_index, owner) == (match gpu_index {
            Some(i) => crate::text::decimal(i as nat),
            None => "single"@,
        }) + home(rest, gpu_index, owner),
        home("{owner}"@ + rest, gpu_index, owner) == sanitized(owner) + home(
            rest,
            gpu_index,
            owner,
        ),
        !"{seat}"@.is_prefix_of(seq![c] + rest) && !"{owner}"@.is_prefix_of(seq![c] + rest) ==> home(
            seq![c] + rest,
            gpu_index,
            owner,
        ) == seq![c] + home(rest, gpu_index, owner),
{
    let label = seat_label(gpu_index);
    let name = sanitized(owner);
    let with_seat = crate::text::replaced(rest, "{seat}"@, label);
    lemma_label(gpu_index);
    reveal_strlit("{seat}");
    reveal_strlit("{owner}");
    assert(home(Seq::empty(), gpu_index, owner) =~= Seq::<char>::empty());

    let s = "{seat}"@ + rest;
    assert("{seat}"@ =~= s.subrange(0, "{seat}"@.len() as int));
    assert(s.skip("{seat}"@.len() as int) =~= rest);
    crate::text::lemma_replaced_step(s, "{seat}"@, label);
    lemma_replaced_passes(label, with_seat, "{owner}"@, name);

    let o = "{owner}"@ + rest;
    let tail = "{owner}"@.skip(1);
    assert(!"{seat}"@.is_prefix_of(o)) by {
        if "{seat}"@.is_prefix_of(o) {
            assert("{seat}"@[1] == o.subrange(0, "{seat}"@.len() as int)[1]);
        }
    }
    crate::text::lemma_replaced_step(o, "{seat}"@, label);
    assert(o.skip(1) =~= tail + rest);
    lemma_replaced_passes(tail, rest, "{seat}"@, label);
    let p = "{owner}"@ + with_seat;
    assert(seq!['{'] + (tail + with_seat) =~= p);
    assert("{owner}"@ =~= p.subrange(0, "{owner}"@.len() as int));
    assert(p.skip("{owner}"@.len() as int) =~= with_seat);
    crate::text::lemma_replaced_step(p, "{owner}"@, name);

    let u = seq![c] + rest;
    assert(u.skip(1) =~= rest);
    if !"{seat}"@.is_prefix_of(u) && !"{owner}"@.is_prefix_of(u) {
        crate::text::lemma_replaced_step(u, "{seat}"@, label);
        let v = seq![c] + with_seat;
        assert(crate::text::replaced(u, "{seat}"@, label) == v);
        assert("{owner}"@.skip(0) =~= "{owner}"@);
        if "{owner}"@.is_prefix_of(v) {
            crate::text::lemma_replaced_prefix(u, "{seat}"@, label, "{owner}"@, 0);
        }
        assert(v.skip(1) =~= with_seat);
        crate::text::lemma_replaced_step(v, "{owner}"@, name);
    }
}

/// How expanding goes on from the start of a template.
proof fn lemma_home_step(template: Seq<char>, gpu_index: Option<usize>, owner: Seq<char>)
    requires
        template.len() > 0,
    ensures
        "{seat}"@.len() == 6,
        "{owner}"@.len() == 7,
        "{seat}"@.is_prefix_of(template) ==> home(template, gpu_index, owner) == seat_label(
            gpu_index,
        ) + home(template.skip(6), gpu_index, owner),
        "{owner}"@.is_prefix_of(template) ==> home(template, gpu_index, owner) == sanitized(owner)
            + home(template.skip(7), gpu_index, owner),
        !"{seat}"@.is_prefix_of(template) && !"{owner}"@.is_prefix_of(template) ==> home(
            template,
            gpu_index,
            owner,
        ) == seq![template[0]] + home(template.skip(1), gpu_index, owner),
{
    reveal_strlit("{seat}");
    reveal_strlit("{owner}");
    if "{seat}"@.is_prefix_of(template) {
        assert("{seat}"@ + template.skip(6) =~= template);
        law_template_is_expanded_left_to_right(template.skip(6), ' ', gpu_index, owner);
    }
    if "{owner}"@.is_prefix_of(template) {
        assert("{owner}"@ + template.skip(7) =~= template);
        law_template_is_expanded_left_to_right(template.skip(7), ' ', gpu_index, owner);
    }
    assert(seq![template[0]] + template.skip(1) =~= template);
    law_template_is_expanded_left_to_right(template.skip(1), template[0], gpu_index, owner);
}

/// Text without a brace stands in the HOME as it is.
proof fn lemma_home_of_text(
    text: Seq<char>,
    rest: Seq<char>,
    gpu_index: Option<usize>,
    owner: Seq<char>,
)
    requires
        !text.contains('{'),
    ensures
        home(text + rest, gpu_index, owner) == text + home(rest, gpu_index, owner),
{
    let label = seat_label(gpu_index);
    reveal_strlit("{seat}");
    reveal_strlit("{owner}");
    lemma_replaced_passes(text, rest, "{seat}"@, label);
    lemma_replaced_passes(
        text,
        crate::text::replaced(rest, "{seat}"@, label),
        "{owner}"@,
        sanitized(owner),
    );
}

/// In a template with both placeholders each gives its own: the texts around them, which
/// have no brace, stay, `{owner}` gives the client's directory name and `{seat}` the number
/// of the slot, in either order.
pub proof fn law_both_placeholders_are_expanded(
    p: Seq<char>,
    q: Seq<char>,
    r: Seq<char>,
    slot: usize,
    owner: Seq<char>,
)
    requires
        !p.contains('{'),
        !q.contains('{'),
        !r.contains('{'),
    ensures
        home(p + "{owner}"@ + q + "{seat}"@ + r, Some(slot), owner) == p + sanitized(owner) + q
            + crate::text::decimal(slot as nat) + r,
        home(p + "{seat}"@ + q + "{owner}"@ + r, Some(slot), owner) == p + crate::text::decimal(
            slot as nat,
        ) + q + sanitized(owner) + r,
{
    let at = Some(slot);
    let label = crate::text::decimal(slot as nat);
    let name = sanitized(owner);
    let none = Seq::<char>::empty();
    law_template_is_expanded_left_to_right(none, ' ', at, owner);
    lemma_home_of_text(r, none, at, owner);
    assert(r + none =~= r);
    assert(home(r, at, owner) == r);
    law_template_is_expanded_left_to_right(r, ' ', at, owner);
    assert(home(p + "{owner}"@ + q + "{seat}"@ + r, at, owner) == p + name + q + label + r) by {
        lemma_home_of_text(q, "{seat}"@ + r, at, owner);
        law_template_is_expanded_left_to_right(q + ("{seat}"@ + r), ' ', at, owner);
        lemma_home_of_text(p, "{owner}"@ + (q + ("{seat}"@ + r)), at, owner);
        lemma_five_in_a_row(p, "{owner}"@, q, "{seat}"@, r);
        lemma_five_in_a_row(p, name, q, label, r);
    }
    assert(home(p + "{seat}"@ + q + "{owner}"@ + r, at, owner) == p + label + q + name + r) by {
        lemma_home_of_text(q, "{owner}"@ + r, at, owner);
        law_template_is_expanded_left_to_right(q + ("{owner}"@ + r), ' ', at, owner);
        lemma_home_of_text(p, "{seat}"@ + (q + ("{owner}"@ + r)), at, owner);
        lemma_five_in_a_row(p, "{seat}"@, q, "{owner}"@, r);
        lemma_five_in_a_row(p, label, q, name, r);
    }
}

/// Five texts in a row are the same however they are put together.
proof fn lemma_five_in_a_row(
    a: Seq<char>,
    b: Seq<char>,
    c: Seq<char>,
    d: Seq<char>,
    e: Seq<char>,
)
    ensures
        a + (b + (c + (d + e))) == a + b + c + d + e,
{
    assert(a + b + (c + (d + e)) =~= a + (b + (c + (d + e))));
    assert(a + b + c + (d + e) =~= a + b + (c + (d + e)));
    assert(a + b + c + d + e =~= a + b + c + (d + e));
}

/// The longer the label, the longer the HOME.
proof fn lemma_home_len_by_seat(
    template: Seq<char>,
    a: Option<usize>,
    b: Option<usize>,
    owner: Seq<char>,
)
    requires
        seat_label(a).len() <= seat_label(b).len(),
    ensures
        home(template, a, owner).len() <= home(template, b, owner).len(),
    decreases template.len(),
{
    if template.len() > 0 {
        lemma_home_step(template, a, owner);
        lemma_home_step(template, b, owner);
        if "{seat}"@.is_prefix_of(template) {
            lemma_home_len_by_seat(template.skip(6), a, b, owner);
        } else if "{owner}"@.is_prefix_of(template) {
            lemma_home_len_by_seat(template.skip(7), a, b, owner);
        } else {
            lemma_home_len_by_seat(template.skip(1), a, b, owner);
        }
    } else {
        assert(template =~= Seq::<char>::empty());
        law_template_is_expanded_left_to_right(template, ' ', a, owner);
        law_template_is_expanded_left_to_right(template, ' ', b, owner);
    }
}

/// The longer the directory name, the longer the HOME.
proof fn lemma_home_len_by_owner(
    template: Seq<char>,
    gpu_index: Option<usize>,
    a: Seq<char>,
    b: Seq<char>,
)
    requires
        sanitized(a).len() <= sanitized(b).len(),
    ensures
        home(template, gpu_index, a).len() <= home(template, gpu_index, b).len(),
    decreases template.len(),
{
    if template.len() > 0 {
        lemma_home_step(template, gpu_index, a);
        lemma_home_step(template, gpu_index, b);
        if "{seat}"@.is_prefix_of(template) {
            lemma_home_len_by_owner(template.skip(6), gpu_index, a, b);
        } else if "{owner}"@.is_prefix_of(template) {
            lemma_home_len_by_owner(template.skip(7), gpu_index, a, b);
        } else {
            lemma_home_len_by_owner(template.skip(1), gpu_index, a, b);
        }
    } else {
        assert(template =~= Seq::<char>::empty());
        law_template_is_expanded_left_to_right(template, ' ', gpu_index, a);
        law_template_is_expanded_left_to_right(template, ' ', gpu_index, b);
    }
}

/// Two equal texts that begin alike go on alike.
proof fn lemma_same_start(x: Seq<char>, a: Seq<char>, b: Seq<char>)
    requires
        x + a == x + b,
    ensures
        a == b,
{
    assert((x + a).skip(x.len() as int) =~= a);
    assert((x + b).skip(x.len() as int) =~= b);
}

/// Two different texts of which the longer one is followed by at least as much as the other
/// do not begin the same text.
proof fn lemma_same_whole(x: Seq<char>, a: Seq<char>, y: Seq<char>, b: Seq<char>)
    requires
        x + a == y + b,
        x.len() <= y.len() ==> a.len() <= b.len(),
        y.len() <= x.len() ==> b.len() <= a.len(),
    ensures
        x == y,
{
    assert((x + a).len() == x.len() + a.len());
    assert((y + b).len() == y.len() + b.len());
    assert(x.len() == y.len());
    assert((x + a).take(x.len() as int) =~= x);
    assert((y + b).take(y.len() as int) =~= y);
}

/// Slots have homes of their own: wherever `{seat}` stands in a template, and whatever else
/// does, two slots give one client different homes.
pub proof fn law_slots_have_different_homes(
    before: Seq<char>,
    after: Seq<char>,
    a: Option<usize>,
    b: Option<usize>,
    owner: Seq<char>,
)
    requires
        a != b,
    ensures
        home(before + "{seat}"@ + after, a, owner) != home(before + "{seat}"@ + after, b, owner),
    decreases before.len(),
{
    let t = before + "{seat}"@ + after;
    reveal_strlit("{seat}");
    reveal_strlit("{owner}");
    lemma_home_step(t, a, owner);
    lemma_home_step(t, b, owner);
    if home(t, a, owner) == home(t, b, owner) {
        if "{seat}"@.is_prefix_of(t) {
            let rest = t.skip(6);
            if seat_label(a).len() <= seat_label(b).len() {
                lemma_home_len_by_seat(rest, a, b, owner);
            }
            if seat_label(b).len() <= seat_label(a).len() {
                lemma_home_len_by_seat(rest, b, a, owner);
            }
            lemma_same_whole(
                seat_label(a),
                home(rest, a, owner),
                seat_label(b),
                home(rest, b, owner),
            );
            lemma_label_injective(a, b);
        } else if "{owner}"@.is_prefix_of(t) {
            lemma_same_start(
                sanitized(owner),
                home(t.skip(7), a, owner),
                home(t.skip(7), b, owner),
            );
            if before.len() < 7 {
                assert(t[before.len() as int] == '{');
                assert("{owner}"@[before.len() as int] == t.subrange(0, 7)[before.len() as int]);
                assert(before.len() == 0);
                assert(t[1] == 's');
                assert("{owner}"@[1] == t.subrange(0, 7)[1]);
            }
            assert(t.skip(7) =~= before.skip(7) + "{seat}"@ + after);
            law_slots_have_different_homes(before.skip(7), after, a, b, owner);
        } else {
            if before.len() == 0 {
                assert("{seat}"@ =~= t.subrange(0, 6));
            }
            lemma_same_start(seq![t[0]], home(t.skip(1), a, owner), home(t.skip(1), b, owner));
            assert(t.skip(1) =~= before.skip(1) + "{seat}"@ + after);
            law_slots_have_different_homes(before.skip(1), after, a, b, owner);
        }
    }
}

/// Clients have homes of their own: wherever `{owner}` stands in a template, and whatever
/// else does, two clients with different directory names have different homes on one slot.
pub proof fn law_clients_have_different_homes(
    before: Seq<char>,
    after: Seq<char>,
    gpu_index: Option<usize>,
    a: Seq<char>,
    b: Seq<char>,
)
    requires
        sanitized(a) != sanitized(b),
    ensures
        home(before + "{owner}"@ + after, gpu_index, a) != home(
            before + "{owner}"@ + after,
            gpu_index,
            b,
        ),
    decreases before.len(),
{
    let t = before + "{owner}"@ + after;
    reveal_strlit("{seat}");
    reveal_strlit("{owner}");
    lemma_home_step(t, gpu_index, a);
    lemma_home_step(t, gpu_index, b);
    if home(t, gpu_index, a) == home(t, gpu_index, b) {
        if "{owner}"@.is_prefix_of(t) {
            let rest = t.skip(7);
            if sanitized(a).len() <= sanitized(b).len() {
                lemma_home_len_by_owner(rest, gpu_index, a, b);
            }
            if sanitized(b).len() <= sanitized(a).len() {
                lemma_home_len_by_owner(rest, gpu_index, b, a);
            }
            lemma_same_whole(
                sanitized(a),
                home(rest, gpu_index, a),
                sanitized(b),
                home(rest, gpu_index, b),
            );
        } else if "{seat}"@.is_prefix_of(t) {
            lemma_same_start(
                seat_label(gpu_index),
                home(t.skip(6), gpu_index, a),
                home(t.skip(6), gpu_index, b),
            );
            if before.len() < 6 {
                assert(t[before.len() as int] == '{');
                assert("{seat}"@[before.len() as int] == t.subrange(0, 6)[before.len() as int]);
                assert(before.len() == 0);
                assert(t[1] == 'o');
                assert("{seat}"@[1] == t.subrange(0, 6)[1]);
            }
            assert(t.skip(6) =~= before.skip(6) + "{owner}"@ + after);
            law_clients_have_different_homes(before.skip(6), after, gpu_index, a, b);
        } else {
            if before.len() == 0 {
                assert("{owner}"@ =~= t.subrange(0, 7));
            }
            lemma_same_start(
                seq![t[0]],
                home(t.skip(1), gpu_index, a),
                home(t.skip(1), gpu_index, b),
            );
            assert(t.skip(1) =~= before.skip(1) + "{owner}"@ + after);
            law_clients_have_different_homes(before.skip(1), after, gpu_index, a, b);
        }
    }
}

} // verus!
