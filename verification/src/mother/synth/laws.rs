//! What synthesis promises of cards, worlds and sentences.

use vstd::prelude::*;

use crate::domain::Domain;
use crate::mother::synth;
use crate::mother::synth::CardView;
use crate::mother::synth::ProposalView;
use crate::mother::synth::ResolutionView;
use crate::mother::synth::ResultView;
use crate::mother::synth::Synthesis;
use crate::text::chars;
use crate::text::pieces;
use crate::text::scan;

verus! {

// ---- tags ----

proof fn lemma_outside_plain(s: Seq<char>)
    requires
        scan::free_of(s, '<'),
        scan::free_of(s, '>'),
    ensures
        synth::outside_tags(s) == s,
        !synth::in_tag(s),
    decreases s.len(),
{
    if s.len() > 0 {
        let init = s.drop_last();
        assert(forall|i: int| 0 <= i < init.len() ==> init[i] == s[i]);
        lemma_outside_plain(init);
        assert(s.last() == s[s.len() - 1]);
        assert(init.push(s.last()) =~= s);
    }
}

proof fn lemma_outside_joins(a: Seq<char>, b: Seq<char>)
    requires
        !synth::in_tag(a),
    ensures
        synth::outside_tags(a + b) == synth::outside_tags(a) + synth::outside_tags(b),
        synth::in_tag(a + b) == synth::in_tag(b),
    decreases b.len(),
{
    if b.len() == 0 {
        assert(a + b =~= a);
        assert(synth::outside_tags(a) + synth::outside_tags(b) =~= synth::outside_tags(a));
    } else {
        let init = b.drop_last();
        lemma_outside_joins(a, init);
        assert((a + b).drop_last() =~= a + init);
        assert((a + b).last() == b.last());
        assert((synth::outside_tags(a) + synth::outside_tags(init)).push(b.last())
            =~= synth::outside_tags(a) + synth::outside_tags(init).push(b.last()));
    }
}

proof fn lemma_tag(name: Seq<char>)
    requires
        scan::free_of(name, '<'),
        scan::free_of(name, '>'),
    ensures
        synth::outside_tags("<"@ + name) == Seq::<char>::empty(),
        synth::in_tag("<"@ + name),
    decreases name.len(),
{
    reveal_strlit("<");
    let s = "<"@ + name;
    if name.len() == 0 {
        assert(s =~= "<"@);
        assert(s.drop_last() =~= Seq::<char>::empty());
        assert(synth::outside_tags(s.drop_last()) =~= Seq::<char>::empty());
    } else {
        let init = name.drop_last();
        assert(forall|i: int| 0 <= i < init.len() ==> init[i] == name[i]);
        lemma_tag(init);
        assert(s.drop_last() =~= "<"@ + init);
        assert(s.last() == name[name.len() - 1]);
    }
}

/// Stripping takes out a tag with its brackets and name, and nothing of the text around it.
pub proof fn law_stripping_takes_out_tags(a: Seq<char>, name: Seq<char>, b: Seq<char>)
    requires
        scan::free_of(a, '<'),
        scan::free_of(a, '>'),
        scan::free_of(name, '<'),
        scan::free_of(name, '>'),
        scan::free_of(b, '<'),
        scan::free_of(b, '>'),
    ensures
        pieces::words(synth::plain(a)) == pieces::words(a),
        pieces::words(synth::plain(a + "<"@ + name + ">"@ + b)) == pieces::words(a + b),
{
    reveal_strlit(">");
    let tag = "<"@ + name + ">"@;
    let all = a + "<"@ + name + ">"@ + b;
    lemma_outside_plain(a);
    lemma_outside_plain(b);
    lemma_tag(name);
    assert(tag.drop_last() =~= "<"@ + name);
    assert(tag.last() == '>');
    assert(synth::outside_tags(tag) =~= Seq::<char>::empty());
    assert(!synth::in_tag(tag));
    lemma_outside_joins(tag, b);
    lemma_outside_joins(a, tag + b);
    assert(all =~= a + (tag + b));
    assert(synth::outside_tags(all) =~= a + b);
    pieces::lemma_words_are_words(a);
    pieces::lemma_words_of_joined(pieces::words(a));
    pieces::lemma_words_are_words(a + b);
    pieces::lemma_words_of_joined(pieces::words(a + b));
}

/// A stripped text has one space between its words, and none around them.
pub proof fn law_stripped_text_is_its_words(html: Seq<char>)
    ensures
        synth::plain(html) == pieces::joined(pieces::words(synth::plain(html)), " "@),
{
    pieces::lemma_words_are_words(synth::outside_tags(html));
    pieces::lemma_words_of_joined(pieces::words(synth::outside_tags(html)));
}

// ---- headlines ----

/// A card that has not resolved says that it is pending, one that has and says nothing that it is
/// done: no card of the same title can be both.
pub proof fn law_pending_is_told_from_done(a: CardView, b: CardView)
    requires
        a.resolve is None,
        b.resolve is Some,
        b.resolve->0.big is None,
        b.resolve->0.lines is None,
    ensures
        synth::headline_of(a) == a.title + ": pending"@,
        synth::headline_of(b) == b.title + ": done"@,
        a.title == b.title ==> synth::headline_of(a) != synth::headline_of(b),
{
    reveal_strlit(": ");
    reveal_strlit("pending");
    reveal_strlit("done");
    reveal_strlit(": pending");
    reveal_strlit(": done");
    assert(": "@ + "pending"@ =~= ": pending"@);
    assert(": "@ + "done"@ =~= ": done"@);
    assert(synth::headline_of(a) =~= a.title + ": pending"@);
    assert(synth::headline_of(b) =~= b.title + ": done"@);
    assert((a.title + ": pending"@).len() == a.title.len() + 9);
    assert((b.title + ": done"@).len() == b.title.len() + 6);
}

/// A headline starts with the card's title and a colon, whatever the card resolved to.
pub proof fn law_headlines_start_with_the_title(c: CardView)
    ensures
        synth::headline_of(c).len() >= c.title.len() + 2,
        synth::headline_of(c).take(c.title.len() as int) == c.title,
        synth::headline_of(c)[c.title.len() as int] == ':',
        synth::headline_of(c)[(c.title.len() + 1) as int] == ' ',
{
    reveal_strlit(": ");
    assert(synth::headline_of(c).take(c.title.len() as int) =~= c.title);
}

/// A card with a headline of its own says it, and what is below it where there is something,
/// whatever its lines.
pub proof fn law_big_comes_before_lines(c: CardView, r: ResolutionView, big: Seq<char>)
    requires
        c.resolve == Some(r),
        r.big == Some(big),
    ensures
        r.sub is None || r.sub->0.len() == 0 ==> synth::headline_of(c) == c.title + ": "@ + big,
        r.sub is Some && r.sub->0.len() > 0 ==> synth::headline_of(c) == c.title + ": "@ + big
            + " — "@ + r.sub->0,
{
    if r.sub is Some && r.sub->0.len() > 0 {
        assert(synth::headline_of(c) =~= c.title + ": "@ + big + " — "@ + r.sub->0);
    }
}

proof fn lemma_no_texts(v: Seq<Option<Seq<char>>>, n: int)
    requires
        0 <= n <= v.len(),
        forall|i: int| n <= i < v.len() ==> (#[trigger] v[i]) is None,
    ensures
        synth::texts_among(v) == synth::texts_among(v.take(n)),
    decreases v.len(),
{
    if n == v.len() {
        assert(v.take(n) =~= v);
    } else {
        let init = v.drop_last();
        assert(v[v.len() - 1] is None);
        assert(forall|i: int| 0 <= i < init.len() ==> init[i] == v[i]);
        lemma_no_texts(init, n);
        assert(init.take(n) =~= v.take(n));
    }
}

proof fn lemma_texts_join(a: Seq<Option<Seq<char>>>, b: Seq<Option<Seq<char>>>)
    ensures
        synth::texts_among(a + b) == synth::texts_among(a) + synth::texts_among(b),
    decreases b.len(),
{
    if b.len() == 0 {
        assert(a + b =~= a);
        assert(synth::texts_among(a) + synth::texts_among(b) =~= synth::texts_among(a));
    } else {
        lemma_texts_join(a, b.drop_last());
        assert((a + b).drop_last() =~= a + b.drop_last());
        assert((a + b).last() == b.last());
        match b.last() {
            Some(s) => {
                assert((synth::texts_among(a) + synth::texts_among(b.drop_last())).push(s)
                    =~= synth::texts_among(a) + synth::texts_among(b.drop_last()).push(s));
            },
            None => {},
        }
    }
}

proof fn lemma_two_joined(x: Seq<char>, y: Seq<char>, sep: Seq<char>)
    ensures
        pieces::joined(seq![x, y], sep) == x + sep + y,
        pieces::joined(seq![x], sep) == x,
        pieces::joined(Seq::empty(), sep) == Seq::<char>::empty(),
{
    let two = seq![x, y];
    assert(two.drop_last() =~= seq![x]);
    assert(two.last() == y);
    assert(pieces::joined(seq![x], sep) == x);
}

/// What a card with lines says, given the texts among them.
proof fn lemma_lines_told(c: CardView, r: ResolutionView, v: Seq<Option<Seq<char>>>, n: int)
    requires
        c.resolve == Some(r),
        r.big is None,
        r.lines == Some(v),
        n == if synth::texts_among(v).len() < 2 {
            synth::texts_among(v).len() as int
        } else {
            2
        },
    ensures
        n == 0 ==> synth::headline_of(c) == c.title + ": "@,
        n == 1 ==> synth::headline_of(c) == c.title + ": "@ + synth::plain(
            synth::texts_among(v)[0],
        ),
        n == 2 ==> synth::headline_of(c) == c.title + ": "@ + synth::plain(
            synth::texts_among(v)[0],
        ) + "; "@ + synth::plain(synth::texts_among(v)[1]),
{
    let t = synth::texts_among(v);
    let told = pieces::at_most(t.map_values(|l: Seq<char>| synth::plain(l)), 2);
    assert(synth::verdict(c.resolve) == pieces::joined(told, "; "@));
    if n == 0 {
        assert(told =~= Seq::<Seq<char>>::empty());
        lemma_two_joined(Seq::empty(), Seq::empty(), "; "@);
        assert(c.title + ": "@ + Seq::<char>::empty() =~= c.title + ": "@);
    } else if n == 1 {
        assert(told =~= seq![synth::plain(t[0])]);
        lemma_two_joined(synth::plain(t[0]), Seq::empty(), "; "@);
    } else {
        assert(told =~= seq![synth::plain(t[0]), synth::plain(t[1])]);
        lemma_two_joined(synth::plain(t[0]), synth::plain(t[1]), "; "@);
        assert(c.title + ": "@ + (synth::plain(t[0]) + "; "@ + synth::plain(t[1])) =~= c.title
            + ": "@ + synth::plain(t[0]) + "; "@ + synth::plain(t[1]));
    }
}

/// A card with lines and without a headline of its own says the first two lines that are texts,
/// without their tags, with a semicolon between them; one where there is one, nothing where there
/// is none.
pub proof fn law_two_lines_are_told(
    c: CardView,
    r: ResolutionView,
    v: Seq<Option<Seq<char>>>,
    i: int,
    j: int,
)
    requires
        c.resolve == Some(r),
        r.big is None,
        r.lines == Some(v),
        0 <= i < j <= v.len() || i == j == v.len(),
        forall|k: int| 0 <= k < i ==> (#[trigger] v[k]) is None,
        forall|k: int| i < k < j ==> (#[trigger] v[k]) is None,
        i < v.len() ==> v[i] is Some,
        j < v.len() ==> v[j] is Some,
    ensures
        i == v.len() ==> synth::headline_of(c) == c.title + ": "@,
        i < v.len() && j == v.len() ==> synth::headline_of(c) == c.title + ": "@ + synth::plain(
            v[i]->0,
        ),
        j < v.len() ==> synth::headline_of(c) == c.title + ": "@ + synth::plain(v[i]->0) + "; "@
            + synth::plain(v[j]->0),
{
    let t = synth::texts_among(v);
    let none = Seq::<Seq<char>>::empty();
    lemma_no_texts(v.take(i), 0);
    assert(v.take(i).take(0) =~= Seq::<Option<Seq<char>>>::empty());
    assert(synth::texts_among(v.take(i)) =~= none);
    if i == v.len() {
        assert(v.take(i) =~= v);
        lemma_lines_told(c, r, v, 0);
    } else {
        let m = v.subrange(i + 1, j);
        assert(forall|k: int| 0 <= k < m.len() ==> m[k] == v[i + 1 + k]);
        assert forall|k: int| 0 <= k < m.len() implies (#[trigger] m[k]) is None by {
            assert(v[i + 1 + k] is None);
        }
        lemma_no_texts(m, 0);
        assert(m.take(0) =~= Seq::<Option<Seq<char>>>::empty());
        assert(synth::texts_among(m) =~= none);
        let a = v.take(i).push(v[i]);
        assert(a.drop_last() =~= v.take(i));
        assert(synth::texts_among(a) =~= seq![v[i]->0]);
        lemma_texts_join(a, m);
        if j == v.len() {
            assert(v =~= a + m);
            assert(t =~= seq![v[i]->0]);
            lemma_lines_told(c, r, v, 1);
        } else {
            let am = a + m;
            let b = am.push(v[j]);
            assert(b.drop_last() =~= am);
            assert(synth::texts_among(b) =~= seq![v[i]->0, v[j]->0]);
            let rest = v.skip(j + 1);
            lemma_texts_join(b, rest);
            assert(v =~= b + rest);
            assert(t[0] == v[i]->0);
            assert(t[1] == v[j]->0);
            lemma_lines_told(c, r, v, 2);
        }
    }
}

// ---- proposals ----

/// A card proposes its first action, where that is a text, under the card's own title, agent and
/// world; a card that has not resolved, or lists no action, or none that is a text first, proposes
/// nothing.
pub proof fn law_a_card_proposes_its_first_action(cards: Seq<CardView>, c: CardView)
    ensures
        ({
            let all = synth::proposals(cards.push(c));
            let before = synth::proposals(cards);
            let has_one = c.resolve is Some && c.resolve->0.actions is Some
                && c.resolve->0.actions->0.len() > 0 && c.resolve->0.actions->0[0] is Some;
            if has_one {
                all == before.push(
                    ProposalView {
                        text: c.resolve->0.actions->0[0]->0 + " — "@ + c.title,
                        card: c.title,
                        agent: c.agent,
                        domain: c.domain,
                    },
                )
            } else {
                all == before
            }
        }),
        synth::proposals(Seq::<CardView>::empty()).len() == 0,
{
    assert(cards.push(c).drop_last() =~= cards);
}

proof fn lemma_world_cards(cards: Seq<CardView>, d: Domain)
    ensures
        synth::cards_in(cards, d) == cards.filter(|c: CardView| c.domain == d),
    decreases cards.len(),
{
    reveal(Seq::filter);
    if cards.len() > 0 {
        lemma_world_cards(cards.drop_last(), d);
    }
}

/// The proposals come by world: those of the cards of work, then of home, then of both.
pub proof fn law_proposals_come_by_world(rs: Seq<ResultView>)
    ensures
        synth::template_proposals(rs) == synth::proposals(
            synth::all_cards(rs).filter(|c: CardView| c.domain == Domain::Work),
        ) + synth::proposals(
            synth::all_cards(rs).filter(|c: CardView| c.domain == Domain::Home),
        ) + synth::proposals(
            synth::all_cards(rs).filter(|c: CardView| c.domain == Domain::Shared),
        ),
{
    lemma_world_cards(synth::all_cards(rs), Domain::Work);
    lemma_world_cards(synth::all_cards(rs), Domain::Home);
    lemma_world_cards(synth::all_cards(rs), Domain::Shared);
}

// ---- sentences ----

/// Every card stands among the cards of the results, after those of the results before its own.
pub proof fn law_all_cards_of_all_results(rs: Seq<ResultView>, r: ResultView)
    ensures
        synth::all_cards(rs.push(r)) == synth::all_cards(rs) + r.cards,
        synth::all_cards(Seq::<ResultView>::empty()).len() == 0,
{
    assert(rs.push(r).drop_last() =~= rs);
}

/// A fact has its card's title in bold and says the rest of the headline without tags.
pub proof fn law_facts_have_bold_titles(c: CardView)
    requires
        scan::free_of(c.title, ':'),
    ensures
        synth::bold_fact(c) == "<b>"@ + c.title + "</b> "@ + synth::plain(
            synth::headline_of(c).skip((c.title.len() + 2) as int),
        ),
{
    reveal_strlit(": ");
    let s = synth::headline_of(c);
    let n = c.title.len() as int;
    let p = ": "@;
    assert(s.subrange(n, n + 2) =~= p);
    assert forall|j: int| j < n implies !scan::at(s, j, p) by {
        if 0 <= j {
            assert(s.subrange(j, j + 2)[0] == c.title[j]);
        }
    }
    assert(scan::first_at(s, n, p));
    let i = choose|i: int| scan::first_at(s, i, p);
    scan::lemma_first_at_unique(s, i, n, p);
    assert(s.take(n) =~= c.title);
}

/// A world with cards has one sentence, under its name: `Work`, `Home`, and `Today` for what is of
/// both; a world without cards has none.
pub proof fn law_a_world_has_a_sentence(cards: Seq<CardView>, d: Domain)
    ensures
        ({
            let own = cards.filter(|c: CardView| c.domain == d);
            let part = synth::world_part(cards, d);
            let name = if d == Domain::Work {
                "Work: "@
            } else if d == Domain::Home {
                "Home: "@
            } else {
                "Today: "@
            };
            &&& own.len() == 0 ==> part.len() == 0
            &&& own.len() > 0 ==> part == seq![
                name + pieces::joined(
                    own.map_values(|c: CardView| synth::bold_fact(c)),
                    " · "@,
                ) + "."@,
            ]
        }),
{
    lemma_world_cards(cards, d);
    reveal_strlit("Work");
    reveal_strlit("Home");
    reveal_strlit("Today");
    reveal_strlit(": ");
    reveal_strlit("Work: ");
    reveal_strlit("Home: ");
    reveal_strlit("Today: ");
    assert("Work"@ + ": "@ =~= "Work: "@);
    assert("Home"@ + ": "@ =~= "Home: "@);
    assert("Today"@ + ": "@ =~= "Today: "@);
}

/// The sentences come by world, work first and both last; then that an agent ran out of time, where
/// one did; then the first note, and no other.
pub proof fn law_sentences_come_in_order(
    intent: Seq<char>,
    rs: Seq<ResultView>,
    notes: Seq<Seq<char>>,
)
    ensures
        ({
            let cards = synth::all_cards(rs);
            let parts = synth::template_parts(intent, rs, notes);
            let worlds = synth::world_part(cards, Domain::Work) + synth::world_part(
                cards,
                Domain::Home,
            ) + synth::world_part(cards, Domain::Shared);
            let late = exists|i: int| 0 <= i < rs.len() && (#[trigger] rs[i]).timed_out;
            let sorry = "One agent did not finish in time; its card shows what it had."@;
            &&& late && notes.len() > 0 ==> parts == worlds + seq![sorry, notes[0]]
            &&& late && notes.len() == 0 ==> parts == worlds + seq![sorry]
            &&& !late && notes.len() > 0 ==> parts == worlds + seq![notes[0]]
            &&& !late && notes.len() == 0 && worlds.len() > 0 ==> parts == worlds
            &&& !late && notes.len() == 0 && worlds.len() == 0 ==> parts == seq![
                "I looked into <b>"@ + synth::plain(intent)
                    + "</b> but nothing came back yet."@,
            ]
        }),
{
    let cards = synth::all_cards(rs);
    let parts = synth::template_parts(intent, rs, notes);
    let worlds = synth::world_part(cards, Domain::Work) + synth::world_part(cards, Domain::Home)
        + synth::world_part(cards, Domain::Shared);
    let sorry = "One agent did not finish in time; its card shows what it had."@;
    let none = Seq::<Seq<char>>::empty();
    if notes.len() > 0 {
        assert(worlds + seq![sorry] + seq![notes[0]] =~= worlds + seq![sorry, notes[0]]);
        assert(worlds + none + seq![notes[0]] =~= worlds + seq![notes[0]]);
    } else {
        assert(worlds + seq![sorry] + none =~= worlds + seq![sorry]);
        assert(worlds + none + none =~= worlds);
    }
}

// ---- facts ----

/// The facts say, line by line, the intent, then of each result its world, agent and scenario,
/// whether it ran out of time, and its cards, then what memory adds, under its own heading.
pub proof fn law_facts_line_by_line(
    intent: Seq<char>,
    rs: Seq<ResultView>,
    r: ResultView,
    notes: Seq<Seq<char>>,
)
    ensures
        synth::facts_text(intent, Seq::empty(), Seq::empty()) == "Intent: "@ + intent,
        ({
            let name = match r.target.world {
                Domain::Work => "Work"@,
                Domain::Home => "Home"@,
                Domain::Shared => "Today"@,
            };
            let head = "["@ + name + " · "@ + r.target.agent + " · via "@ + r.target.scenario
                + "]"@;
            let first = if r.timed_out {
                head + " (timed out — partial)"@
            } else {
                head
            };
            let own = synth::all_lines(rs.push(r)).skip(synth::all_lines(rs).len() as int);
            &&& synth::all_lines(rs.push(r)).take(synth::all_lines(rs).len() as int)
                == synth::all_lines(rs)
            &&& own.len() == 1 + r.cards.len()
            &&& own[0] == first
            &&& forall|i: int|
                0 <= i < r.cards.len() ==> #[trigger] own[i + 1] == "  - "@ + synth::plain(
                    synth::headline_of(r.cards[i]),
                )
        }),
        notes.len() == 0 ==> synth::note_lines(notes).len() == 0,
        notes.len() > 0 ==> synth::note_lines(notes).len() == notes.len() + 1
            && synth::note_lines(notes)[0] == "[Memory]"@ && forall|i: int|
            0 <= i < notes.len() ==> #[trigger] synth::note_lines(notes)[i + 1] == "  - "@
                + notes[i],
        synth::facts_text(intent, rs, notes) == pieces::joined(
            (seq!["Intent: "@ + intent] + synth::all_lines(rs)) + synth::note_lines(notes),
            "\n"@,
        ),
{
    let none = Seq::<Seq<char>>::empty();
    assert(synth::all_lines(Seq::<ResultView>::empty()) =~= none);
    assert(seq!["Intent: "@ + intent] + none + none =~= seq!["Intent: "@ + intent]);
    assert(rs.push(r).drop_last() =~= rs);
    let before = synth::all_lines(rs);
    let all = synth::all_lines(rs.push(r));
    assert(all.take(before.len() as int) =~= before);
    assert(all.skip(before.len() as int) =~= synth::result_lines(r));
    let head = "["@ + synth::label_of(r.target.world) + " · "@ + r.target.agent + " · via "@
        + r.target.scenario + "]"@;
    assert(head + Seq::<char>::empty() =~= head);
}

// ---- the model's text ----

proof fn lemma_last_said(chunks: Seq<Seq<char>>, i: int)
    requires
        0 <= i <= chunks.len(),
        forall|k: int| i <= k < chunks.len() ==> (#[trigger] chunks[k]).len() == 0,
    ensures
        synth::last_said(chunks) == synth::last_said(chunks.take(i)),
    decreases chunks.len(),
{
    if i == chunks.len() {
        assert(chunks.take(i) =~= chunks);
    } else {
        let init = chunks.drop_last();
        assert(chunks[chunks.len() - 1].len() == 0);
        assert(forall|k: int| 0 <= k < init.len() ==> init[k] == chunks[k]);
        lemma_last_said(init, i);
        assert(init.take(i) =~= chunks.take(i));
    }
}

/// The text of a run is its last chunk that is not empty, trimmed; a run has none where that is
/// only white space, or where no chunk said anything.
pub proof fn law_the_last_chunk_counts(chunks: Seq<Seq<char>>, i: int)
    requires
        -1 <= i < chunks.len(),
        forall|k: int| i < k < chunks.len() ==> (#[trigger] chunks[k]).len() == 0,
        i >= 0 ==> chunks[i].len() > 0,
    ensures
        i == -1 ==> synth::final_text(chunks) is None,
        i >= 0 && scan::trimmed(chunks[i]).len() > 0 ==> synth::final_text(chunks) == Some(
            scan::trimmed(chunks[i]),
        ),
        i >= 0 && scan::trimmed(chunks[i]).len() == 0 ==> synth::final_text(chunks) is None,
{
    lemma_last_said(chunks, i + 1);
    if i == -1 {
        assert(chunks.take(0) =~= Seq::<Seq<char>>::empty());
        assert(scan::drop_start(Seq::<char>::empty(), chars::Class::White).len() == 0);
    } else {
        assert(chunks.take(i + 1).last() == chunks[i]);
    }
}

/// What the model wrote is told where it wrote something, and else the template, each under its own
/// name; the actions are the template's either way.
pub proof fn law_the_model_speaks_first(t: Synthesis, generated: Option<String>, r: Synthesis)
    requires
        synth::composed(t, generated, r),
        t.source@ == "template"@,
    ensures
        generated is Some ==> r.html@ == generated->0@ && r.source@ == "llm"@,
        generated is None ==> r.html@ == t.html@ && r.source@ == "template"@,
        synth::actions_of(r.actions@) == synth::actions_of(t.actions@),
{
}

} // verus!
