//! The effects page: what each effect in the chain is called, and the sheet of effects
//! to add.

use vstd::prelude::*;
use vstd::arithmetic::power2::{lemma2_to64, lemma_pow2_pos, pow2};

use crate::arithmetic::milli_one;
use crate::config::{chain_view, EffectEntry, EffectView};
use crate::plugins::lv2::{
    has_uri, id_for_uri, installed_name, is_lv2, name_for_uri, uri_from_id, uri_of, InstalledPlugin, LV2_ID_PREFIX,
};
use crate::plugins::{
    builtin_table, builtins, curated_lv2, curated_table, find_listed, listed_as, listed_name, Category, Listed,
    PluginParam,
};
use crate::ordered::{difference_is_rounded_distance, rounding_is_exact, rounding_keeps_order};
use crate::plugins::presets::values_view;
use crate::rounding::{distance, from_milli, milli, milli_grows, milli_is_finite, power_of_sum, rounding_is_unique, rounds_to};
use crate::scalar::{smaller_is_at_most_larger, units, units_grow, Scalar, ONE_BITS, STEP};
use crate::search::{filter_positions, first_index, first_index_holds};
use crate::text::{contains, has_part, has_prefix, lowercase, owned, same_text, to_lowercase};

verus! {

// ── Names ────────────────────────────────────────────────────────────────────

/// What an effect of the chain is called: a built-in one by the name that it is listed
/// with, a plugin by the name that it has itself, anything else by its identifier.
pub open spec fn display_name_of(plugins: Seq<InstalledPlugin>, id: Seq<char>) -> Seq<char> {
    match listed_name(builtin_table(), id) {
        Some(name) => name,
        None => if is_lv2(id) && installed_name(plugins, uri_of(id)) is Some {
            installed_name(plugins, uri_of(id))->0
        } else {
            id
        },
    }
}

/// Display name for the identifier of a chain entry.
pub fn display_name(plugins: &Vec<InstalledPlugin>, id: &str) -> (r: String)
    ensures
        r@ == display_name_of(plugins@, id@),
{
    let builtin: Vec<Listed> = builtins();
    match find_listed(&builtin, id) {
        Some(i) => owned(builtin[i].name),
        None => match uri_from_id(id) {
            Some(uri) => match name_for_uri(plugins, uri.as_str()) {
                Some(name) => name,
                None => owned(id),
            },
            None => owned(id),
        },
    }
}

// ── The sheet of effects to add ──────────────────────────────────────────────

/// An effect that can be added.
pub struct Offer {
    pub id: String,
    pub name: &'static str,
    pub description: &'static str,
    pub category: Category,
}

pub struct OfferView {
    pub id: Seq<char>,
    pub name: Seq<char>,
    pub description: Seq<char>,
    pub category: Category,
}

impl View for Offer {
    type V = OfferView;

    open spec fn view(&self) -> OfferView {
        OfferView {
            id: self.id@,
            name: self.name@,
            description: self.description@,
            category: self.category,
        }
    }
}

pub open spec fn offers_view(offers: Seq<Offer>) -> Seq<OfferView> {
    Seq::new(offers.len(), |i: int| offers[i]@)
}

/// A built-in effect as it is offered.
pub open spec fn builtin_offer(row: Listed) -> OfferView {
    OfferView {
        id: row.id@,
        name: row.name@,
        description: row.description@,
        category: row.category,
    }
}

/// A curated plugin as it is offered.
pub open spec fn plugin_offer(row: Listed) -> OfferView {
    OfferView {
        id: LV2_ID_PREFIX@ + row.id@,
        name: row.name@,
        description: row.description@,
        category: row.category,
    }
}

/// The built-in effects of a category.
pub open spec fn builtin_offers(rows: Seq<Listed>, category: Category) -> Seq<OfferView> {
    rows.filter(|row: Listed| row.category == category).map_values(
        |row: Listed| builtin_offer(row),
    )
}

/// The curated plugins of a category that are installed.
pub open spec fn plugin_offers(
    rows: Seq<Listed>,
    plugins: Seq<InstalledPlugin>,
    category: Category,
) -> Seq<OfferView> {
    rows.filter(
        |row: Listed| row.category == category && installed_name(plugins, row.id@) is Some,
    ).map_values(|row: Listed| plugin_offer(row))
}

/// What a section of the sheet lists: the built-in effects of the category, then the
/// curated plugins of it that are installed.
pub open spec fn section(plugins: Seq<InstalledPlugin>, category: Category) -> Seq<OfferView> {
    builtin_offers(builtin_table(), category) + plugin_offers(curated_table(), plugins, category)
}

fn push_builtins(out: &mut Vec<Offer>, rows: &Vec<Listed>, category: Category)
    ensures
        offers_view(final(out)@) == offers_view(old(out)@) + builtin_offers(rows@, category),
{
    let ghost keep = |row: Listed| row.category == category;
    let ghost make = |row: Listed| builtin_offer(row);
    let ghost lead = offers_view(out@);
    let mut i: usize = 0;
    proof {
        reveal(Seq::filter);
        assert(lead + rows@.take(0).filter(keep).map_values(make) =~= lead);
    }
    while i < rows.len()
        invariant
            i <= rows@.len(),
            keep == (|row: Listed| row.category == category),
            make == (|row: Listed| builtin_offer(row)),
            offers_view(out@) == lead + rows@.take(i as int).filter(keep).map_values(make),
        decreases rows@.len() - i,
    {
        let ghost after = rows@.take(i + 1);
        let ghost so_far = rows@.take(i as int).filter(keep).map_values(make);
        proof {
            reveal(Seq::filter);
            assert(after.drop_last() =~= rows@.take(i as int));
            assert(after.last() == rows@[i as int]);
        }
        let row: Listed = rows[i];
        if row.category == category {
            let ghost before = out@;
            out.push(
                Offer {
                    id: owned(row.id),
                    name: row.name,
                    description: row.description,
                    category: row.category,
                },
            );
            proof {
                assert(offers_view(out@) =~= offers_view(before).push(builtin_offer(row)));
                assert(after.filter(keep).map_values(make) =~= so_far.push(make(row)));
                assert(lead + so_far.push(make(row)) =~= (lead + so_far).push(make(row)));
            }
        }
        i = i + 1;
    }
    assert(rows@.take(rows@.len() as int) =~= rows@);
}

fn push_plugins(
    out: &mut Vec<Offer>,
    rows: &Vec<Listed>,
    plugins: &Vec<InstalledPlugin>,
    category: Category,
)
    ensures
        offers_view(final(out)@) == offers_view(old(out)@) + plugin_offers(
            rows@,
            plugins@,
            category,
        ),
{
    let ghost keep = |row: Listed|
        row.category == category && installed_name(plugins@, row.id@) is Some;
    let ghost make = |row: Listed| plugin_offer(row);
    let ghost lead = offers_view(out@);
    let mut i: usize = 0;
    proof {
        reveal(Seq::filter);
        assert(lead + rows@.take(0).filter(keep).map_values(make) =~= lead);
    }
    while i < rows.len()
        invariant
            i <= rows@.len(),
            keep == (|row: Listed|
                row.category == category && installed_name(plugins@, row.id@) is Some),
            make == (|row: Listed| plugin_offer(row)),
            offers_view(out@) == lead + rows@.take(i as int).filter(keep).map_values(make),
        decreases rows@.len() - i,
    {
        let ghost after = rows@.take(i + 1);
        let ghost so_far = rows@.take(i as int).filter(keep).map_values(make);
        proof {
            reveal(Seq::filter);
            assert(after.drop_last() =~= rows@.take(i as int));
            assert(after.last() == rows@[i as int]);
        }
        let row: Listed = rows[i];
        let installed: bool = match name_for_uri(plugins, row.id) {
            Some(_) => true,
            None => false,
        };
        if row.category == category && installed {
            let ghost before = out@;
            out.push(
                Offer {
                    id: id_for_uri(row.id),
                    name: row.name,
                    description: row.description,
                    category: row.category,
                },
            );
            proof {
                assert(offers_view(out@) =~= offers_view(before).push(plugin_offer(row)));
                assert(after.filter(keep).map_values(make) =~= so_far.push(make(row)));
                assert(lead + so_far.push(make(row)) =~= (lead + so_far).push(make(row)));
            }
        }
        i = i + 1;
    }
    assert(rows@.take(rows@.len() as int) =~= rows@);
}

/// The effects to offer: the section on voice first, then the one on fun.
pub fn available_effects(plugins: &Vec<InstalledPlugin>) -> (r: Vec<Offer>)
    ensures
        offers_view(r@) == section(plugins@, Category::Voice) + section(plugins@, Category::Fun),
{
    let builtin: Vec<Listed> = builtins();
    let curated: Vec<Listed> = curated_lv2();
    let mut r: Vec<Offer> = Vec::new();
    assert(offers_view(r@) =~= Seq::empty());
    push_builtins(&mut r, &builtin, Category::Voice);
    push_plugins(&mut r, &curated, plugins, Category::Voice);
    push_builtins(&mut r, &builtin, Category::Fun);
    push_plugins(&mut r, &curated, plugins, Category::Fun);
    assert(offers_view(r@) =~= section(plugins@, Category::Voice) + section(
        plugins@,
        Category::Fun,
    ));
    r
}

/// The row stays visible under the search text: there is none, or its title or its
/// subtitle holds it, whatever the letter case.
pub open spec fn is_found(title: Seq<char>, subtitle: Seq<char>, query: Seq<char>) -> bool {
    let wanted = lowercase(query);
    wanted.len() == 0 || has_part(lowercase(title), wanted) || has_part(
        lowercase(subtitle),
        wanted,
    )
}

/// Whether a row of the sheet matches the search text.
pub fn effect_matches(title: &str, subtitle: &str, query: &str) -> (r: bool)
    ensures
        r == is_found(title@, subtitle@, query@),
{
    let wanted: String = to_lowercase(query);
    if wanted.as_str().unicode_len() == 0 {
        return true;
    }
    let t: String = to_lowercase(title);
    if contains(t.as_str(), wanted.as_str()) {
        return true;
    }
    let s: String = to_lowercase(subtitle);
    contains(s.as_str(), wanted.as_str())
}

/// The effect is in the chain.
pub open spec fn in_chain(chain: Seq<EffectView>, id: Seq<char>) -> bool {
    exists|i: int| 0 <= i < chain.len() && (#[trigger] chain[i]).id == id
}

/// Whether an effect of the sheet can be added: one that is in the chain already is
/// not added again.
pub fn can_add(chain: &Vec<EffectEntry>, id: &str) -> (r: bool)
    ensures
        r == !in_chain(chain_view(chain@), id@),
{
    let mut i: usize = 0;
    while i < chain.len()
        invariant
            i <= chain@.len(),
            forall|k: int| 0 <= k < i ==> (#[trigger] chain_view(chain@)[k]).id != id@,
        decreases chain@.len() - i,
    {
        assert(chain_view(chain@)[i as int].id == chain@[i as int].id@);
        if same_text(chain[i].id.as_str(), id) {
            return false;
        }
        i = i + 1;
    }
    true
}

// ── Controls ─────────────────────────────────────────────────────────────────

/// How a number is edited.
#[derive(Clone, Copy, Debug, PartialEq, Eq, Structural)]
pub struct Slider {
    pub lo: Scalar,
    pub hi: Scalar,
    /// Digits behind the point.
    pub digits: u32,
    /// The slider moves in whole steps.
    pub whole_steps: bool,
    pub value: Scalar,
}

/// The slider of a control.
pub open spec fn is_slider(p: PluginParam, integer: bool, r: Slider) -> bool {
    &&& r.lo == p.min.smaller(p.max)
    &&& r.hi == p.min.larger(p.max)
    &&& r.whole_steps == integer
    &&& r.digits == (if integer || milli(100_000).le(r.hi.difference(r.lo)) {
        0u32
    } else {
        2u32
    })
    &&& r.value == p.value.clamped(r.lo, r.hi)
}

/// The slider of a control. Ends that are given the wrong way round are exchanged; a wide
/// range needs no digits behind the point.
pub fn slider(p: &PluginParam, integer: bool) -> (r: Slider)
    requires
        !p.min.is_nan() || !p.max.is_nan(),
    ensures
        is_slider(*p, integer, r),
{
    proof {
        smaller_is_at_most_larger(p.min, p.max);
    }
    let lo: Scalar = p.min.min_with(p.max);
    let hi: Scalar = p.min.max_with(p.max);
    let digits: u32 = if integer || from_milli(100_000).at_most(hi.minus(lo)) {
        0
    } else {
        2
    };
    Slider { lo, hi, digits, whole_steps: integer, value: p.value.clamp_to(lo, hi) }
}

/// A switch shows a value as on.
pub open spec fn shows_on(value: Scalar) -> bool {
    milli(500).lt(value)
}

/// The value that a switch sets.
pub open spec fn switched(active: bool) -> Scalar {
    if active {
        milli(1000)
    } else {
        milli(0)
    }
}

/// Whether a switch is on, by the value of its control.
pub fn switch_active(value: Scalar) -> (r: bool)
    ensures
        r == shows_on(value),
{
    from_milli(500).below(value)
}

/// The value of a control, by its switch.
pub fn switch_value(active: bool) -> (r: Scalar)
    ensures
        r == switched(active),
{
    if active {
        from_milli(1000)
    } else {
        from_milli(0)
    }
}

/// A switch shows the value that it set.
pub proof fn switches_show_what_they_set(active: bool)
    ensures
        shows_on(switched(active)) == active,
{
    milli_grows(0, 500);
    milli_grows(500, 1000);
    if milli(1000).le(milli(500)) {
        milli_is_finite(500);
        milli_is_finite(1000);
        milli_one();
        let unit = pow2(149);
        let n = 500 * unit;
        assert(distance(500, 0) == 500);
        lemma_pow2_pos(149);
        let p = ONE_BITS as nat;
        assert(milli(500).magnitude() == p);
        units_grow((p - 1) as nat, p);
        below_one();
        assert(false);
    }
}

proof fn below_one()
    ensures
        !rounds_to(distance(500, 0) * pow2(149), 1000, ONE_BITS as nat),
{
    milli_one();
    let p = ONE_BITS as nat;
    let unit = pow2(149);
    lemma_pow2_pos(149);
    lemma2_to64();
    power_of_sum(148, 1);
    power_of_sum(125, 23);
    power_of_sum(125, 24);
    let q = (p - 1) as nat;
    let f = pow2(125);
    assert(q / (STEP as nat) == 126 && q % (STEP as nat) == STEP - 1);
    assert(units(q) == 0xff_ffff * f);
    assert(unit == 0x100_0000 * f) by (nonlinear_arith)
        requires
            unit == f * 0x100_0000,
    ;
    assert(distance(500, 0) * unit == 500 * unit);
}

/// How far an option is from the current value.
pub open spec fn option_distance(points: Seq<(Seq<char>, Scalar)>, value: Scalar, i: int) -> Scalar {
    points[i].1.difference(value).absolute()
}

/// The option that is nearest to the current value, the first of several; 0 where there
/// is none.
pub open spec fn nearest_option_of(points: Seq<(Seq<char>, Scalar)>, value: Scalar) -> int
    decreases points.len(),
{
    if points.len() <= 1 {
        0
    } else {
        let best = nearest_option_of(points.drop_last(), value);
        let last = points.len() - 1;
        if option_distance(points, value, last).lt(option_distance(points, value, best)) {
            last
        } else {
            best
        }
    }
}

proof fn nearest_is_inside(points: Seq<(Seq<char>, Scalar)>, value: Scalar)
    requires
        points.len() > 0,
    ensures
        0 <= nearest_option_of(points, value) < points.len(),
    decreases points.len(),
{
    if points.len() > 1 {
        nearest_is_inside(points.drop_last(), value);
    }
}

/// The option to select for the current value.
pub fn nearest_option(points: &Vec<(String, Scalar)>, value: Scalar) -> (r: usize)
    ensures
        r == nearest_option_of(values_view(points@), value),
{
    let ghost all = values_view(points@);
    if points.len() == 0 {
        return 0;
    }
    let mut best: usize = 0;
    let mut i: usize = 1;
    while i < points.len()
        invariant
            1 <= i <= points@.len(),
            all == values_view(points@),
            best < i,
            best == nearest_option_of(all.take(i as int), value),
        decreases points@.len() - i,
    {
        assert(all.take(i + 1).drop_last() =~= all.take(i as int));
        let here: Scalar = points[i].1.minus(value).abs();
        let there: Scalar = points[best].1.minus(value).abs();
        if here.below(there) {
            best = i;
        }
        i = i + 1;
    }
    assert(all.take(all.len() as int) =~= all);
    best
}

/// No option is nearer than the selected one, as long as all distances are numbers.
pub proof fn selected_option_is_nearest(points: Seq<(Seq<char>, Scalar)>, value: Scalar, i: int)
    requires
        0 <= i < points.len(),
        forall|k: int|
            0 <= k < points.len() ==> !(#[trigger] option_distance(points, value, k)).is_nan(),
    ensures
        option_distance(points, value, nearest_option_of(points, value)).le(
            option_distance(points, value, i),
        ),
    decreases points.len(),
{
    nearest_is_inside(points, value);
    if points.len() > 1 {
        let front = points.drop_last();
        let last = points.len() - 1;
        let best = nearest_option_of(front, value);
        nearest_is_inside(front, value);
        assert forall|k: int| 0 <= k < front.len() implies !(#[trigger] option_distance(
            front,
            value,
            k,
        )).is_nan() by {
            assert(!option_distance(points, value, k).is_nan());
        }
        assert(!option_distance(points, value, last).is_nan());
        assert(!option_distance(points, value, best).is_nan());
        if i < last {
            selected_option_is_nearest(front, value, i);
            assert(option_distance(front, value, i) == option_distance(points, value, i));
        }
        assert(option_distance(front, value, best) == option_distance(points, value, best));
    } else {
        assert(!option_distance(points, value, 0).is_nan());
    }
}

/// A built-in effect is shown by the name in its row, a plugin by its own name as long as
/// it is installed, and anything else by its identifier.
pub proof fn effects_are_shown_by_their_names(plugins: Seq<InstalledPlugin>, id: Seq<char>)
    ensures
        (exists|k: int| 0 <= k < builtin_table().len() && (#[trigger] builtin_table()[k]).id@ == id)
            ==> exists|k: int|
            0 <= k < builtin_table().len() && (#[trigger] builtin_table()[k]).id@ == id
                && display_name_of(plugins, id) == builtin_table()[k].name@,
        (forall|k: int| 0 <= k < builtin_table().len() ==> (#[trigger] builtin_table()[k]).id@ != id)
            ==> {
            ||| display_name_of(plugins, id) == id
            ||| has_prefix(id, "lv2:"@) && exists|k: int|
                0 <= k < plugins.len() && "lv2:"@ + (#[trigger] plugins[k]).uri@ == id
                    && display_name_of(plugins, id) == plugins[k].name@
        },
        (forall|k: int| 0 <= k < builtin_table().len() ==> (#[trigger] builtin_table()[k]).id@ != id)
            && (exists|k: int| 0 <= k < plugins.len() && "lv2:"@ + (#[trigger] plugins[k]).uri@ == id)
            ==> exists|k: int|
            0 <= k < plugins.len() && "lv2:"@ + (#[trigger] plugins[k]).uri@ == id
                && display_name_of(plugins, id) == plugins[k].name@,
{
    let table = builtin_table();
    first_index_holds(table, listed_as(id));
    first_index_holds(plugins, has_uri(uri_of(id)));
    assert forall|k: int| 0 <= k < table.len() implies listed_as(id)(#[trigger] table[k]) == (
    table[k].id@ == id) by {}
    assert forall|k: int| 0 <= k < plugins.len() && is_lv2(id) implies has_uri(uri_of(id))(
        #[trigger] plugins[k],
    ) == ("lv2:"@ + plugins[k].uri@ == id) by {
        assert(id =~= "lv2:"@ + uri_of(id));
        if "lv2:"@ + plugins[k].uri@ == id {
            assert(uri_of(id) =~= plugins[k].uri@);
        }
    }
    assert forall|k: int|
        0 <= k < plugins.len() && "lv2:"@ + (#[trigger] plugins[k]).uri@ == id implies is_lv2(
        id,
    ) by {
        assert(id.take("lv2:"@.len() as int) =~= "lv2:"@);
    }
}

/// Everything that is built in is offered under its category.
pub proof fn every_builtin_is_offered(plugins: Seq<InstalledPlugin>, k: int) -> (i: int)
    requires
        0 <= k < builtin_table().len(),
    ensures
        ({
            let row = builtin_table()[k];
            let offers = section(plugins, row.category);
            &&& 0 <= i < offers.len()
            &&& offers[i].id == row.id@
            &&& offers[i].name == row.name@
            &&& offers[i].description == row.description@
            &&& offers[i].category == row.category
        }),
{
    let row = builtin_table()[k];
    let keep = |r: Listed| r.category == row.category;
    let at = filter_positions(builtin_table(), keep);
    assert(keep(builtin_table()[k]));
    choose|i: int| 0 <= i < at.len() && at[i] == k
}

/// A curated plugin is offered where it is installed.
pub proof fn every_installed_plugin_is_offered(
    plugins: Seq<InstalledPlugin>,
    k: int,
    p: int,
) -> (i: int)
    requires
        0 <= k < curated_table().len(),
        0 <= p < plugins.len(),
        plugins[p].uri@ == curated_table()[k].id@,
    ensures
        ({
            let row = curated_table()[k];
            let offers = section(plugins, row.category);
            &&& 0 <= i < offers.len()
            &&& offers[i].id == "lv2:"@ + row.id@
            &&& offers[i].name == row.name@
            &&& offers[i].description == row.description@
            &&& offers[i].category == row.category
        }),
{
    let row = curated_table()[k];
    let keep = |r: Listed| r.category == row.category && installed_name(plugins, r.id@) is Some;
    first_index_holds(plugins, has_uri(row.id@));
    assert(has_uri(row.id@)(plugins[p]));
    let at = filter_positions(curated_table(), keep);
    assert(keep(curated_table()[k]));
    let i = choose|i: int| 0 <= i < at.len() && at[i] == k;
    builtin_offers(builtin_table(), row.category).len() + i
}

/// A section offers nothing but the effects of its category: built-in ones, and curated
/// plugins that are installed.
pub proof fn only_what_is_there_is_offered(
    plugins: Seq<InstalledPlugin>,
    category: Category,
    i: int,
)
    requires
        0 <= i < section(plugins, category).len(),
    ensures
        section(plugins, category)[i].category == category,
        (exists|k: int|
            0 <= k < builtin_table().len() && section(plugins, category)[i].id == (
            #[trigger] builtin_table()[k]).id@) || (exists|k: int, p: int|
            0 <= k < curated_table().len() && 0 <= p < plugins.len() && section(
                plugins,
                category,
            )[i].id == "lv2:"@ + (#[trigger] curated_table()[k]).id@ && (
            #[trigger] plugins[p]).uri@ == curated_table()[k].id@),
{
    let own = builtin_offers(builtin_table(), category);
    if i < own.len() {
        let at = filter_positions(builtin_table(), |r: Listed| r.category == category);
        assert(section(plugins, category)[i].id == builtin_table()[at[i]].id@);
    } else {
        let j = i - own.len();
        let at = filter_positions(
            curated_table(),
            |r: Listed| r.category == category && installed_name(plugins, r.id@) is Some,
        );
        let row = curated_table()[at[j]];
        first_index_holds(plugins, has_uri(row.id@));
        let p = first_index(plugins, has_uri(row.id@))->0;
        assert(plugins[p].uri@ == curated_table()[at[j]].id@);
        assert(section(plugins, category)[i] == plugin_offer(row));
    }
}

/// Searching looks at the title and at the subtitle, and letter case does not matter.
pub proof fn a_search_looks_at_both_texts(
    title: Seq<char>,
    subtitle: Seq<char>,
    query: Seq<char>,
    other: Seq<char>,
)
    ensures
        lowercase(query).len() == 0 ==> is_found(title, subtitle, query),
        has_part(lowercase(title), lowercase(query)) ==> is_found(title, subtitle, query),
        has_part(lowercase(subtitle), lowercase(query)) ==> is_found(title, subtitle, query),
        lowercase(query) == lowercase(other) ==> is_found(title, subtitle, query) == is_found(
            title,
            subtitle,
            other,
        ),
        lowercase(query).len() > 0 && !has_part(lowercase(title), lowercase(query)) && !has_part(
            lowercase(subtitle),
            lowercase(query),
        ) ==> !is_found(title, subtitle, query),
{
}

/// The ends of a slider are those of its control, in order; a value between them is shown
/// as it is, and one outside at the end that it is beyond.
pub proof fn a_slider_shows_its_value(p: PluginParam, integer: bool, r: Slider)
    requires
        is_slider(p, integer, r),
        !p.min.is_nan(),
        !p.max.is_nan(),
        !p.value.is_nan(),
    ensures
        r.lo.le(r.hi),
        p.min.le(p.max) ==> r.lo.place() == p.min.place() && r.hi.place() == p.max.place(),
        p.max.le(p.min) ==> r.lo.place() == p.max.place() && r.hi.place() == p.min.place(),
        r.lo.le(p.value) && p.value.le(r.hi) ==> r.value == p.value,
        p.value.lt(r.lo) ==> r.value == r.lo,
        r.hi.lt(p.value) ==> r.value == r.hi,
        r.whole_steps == integer,
        integer ==> r.digits == 0,
{
    smaller_is_at_most_larger(p.min, p.max);
}

/// Where one of the options is the current value, an option with that value is selected.
pub proof fn the_current_option_is_selected(
    points: Seq<(Seq<char>, Scalar)>,
    value: Scalar,
    k: int,
)
    requires
        0 <= k < points.len(),
        points[k].1 == value,
        forall|j: int| 0 <= j < points.len() ==> (#[trigger] points[j]).1.is_finite(),
    ensures
        0 <= nearest_option_of(points, value) < points.len(),
        points[nearest_option_of(points, value)].1.value() == value.value(),
{
    let best = nearest_option_of(points, value);
    nearest_is_inside(points, value);
    assert forall|j: int| 0 <= j < points.len() implies !(#[trigger] option_distance(
        points,
        value,
        j,
    )).is_nan() by {
        difference_is_rounded_distance(points[j].1, value);
    }
    selected_option_is_nearest(points, value, k);
    difference_is_rounded_distance(points[best].1, value);
    difference_is_rounded_distance(value, value);
    let d = distance(points[best].1.value(), value.value());
    assert(units(0) == 0 && units(1) == 1);
    rounding_is_exact(0, 1);
    rounding_is_unique(0, 1, 0, option_distance(points, value, k).magnitude());
    if d >= 1 {
        rounding_is_exact(1, 1);
        rounding_keeps_order(1, 1, d, 1, 1, option_distance(points, value, best).magnitude());
    }
}

} // verus!
