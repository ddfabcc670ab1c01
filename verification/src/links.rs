//! Finding the links a user may want to open: in window titles and on the clipboard.

use vstd::prelude::*;
use linkify::{LinkFinder, LinkKind};
use crate::text::{first_chars, occurs_in, truncate_chars};

verus! {

/// The URL links that `linkify`'s `LinkFinder`, restricted to `LinkKind::Url`, finds in a
/// text, in the order it finds them; its scanners take pages to state.
pub uninterp spec fn url_links(text: Seq<char>) -> Seq<Seq<char>>;

/// The bounds `b` place each of `links` in `text`: each link is the piece of `text` its
/// bounds mark, and the pieces follow one another without overlapping.
pub open spec fn pieces_at(text: Seq<char>, links: Seq<Seq<char>>, b: Seq<(int, int)>) -> bool {
    &&& b.len() == links.len()
    &&& forall|k: int|
        0 <= k < b.len() ==> 0 <= (#[trigger] b[k]).0 < b[k].1 <= text.len() && links[k]
            == text.subrange(b[k].0, b[k].1)
    &&& forall|k: int, l: int| 0 <= k < l < b.len() ==> (#[trigger] b[k]).1 <= (#[trigger] b[l]).0
}

/// `links` are pieces of `text`, in the order they stand there, not overlapping.
pub open spec fn pieces_in_order(text: Seq<char>, links: Seq<Seq<char>>) -> bool {
    exists|b: Seq<(int, int)>| pieces_at(text, links, b)
}

/// `linkify::LinkFinder::links` with the finder restricted to URLs: the text of each link
/// found in `input`, in order. Claimed: the result is what the finder gives for `input` (named
/// `url_links`); the links are pieces of `input` in order, not overlapping (each is the slice
/// between its start and end, and scanning goes on after the previous link's end); and each
/// holds `://` (a URL is only found around a `:` followed by `//`).
#[verifier::external_body]
pub fn link_finder_str(input: &str) -> (links: Vec<String>)
    ensures
        links.deep_view() == url_links(input@),
        pieces_in_order(input@, links.deep_view()),
        forall|k: int| 0 <= k < links@.len() ==> occurs_in("://"@, #[trigger] links.deep_view()[k]),
{
    let mut finder = LinkFinder::new();
    finder.kinds(&[LinkKind::Url]);
    finder.links(input).map(|link| link.as_str().to_string()).collect()
}

/// The URL links of all `texts`, text after text.
pub open spec fn links_in(texts: Seq<Seq<char>>) -> Seq<Seq<char>>
    decreases texts.len(),
{
    if texts.len() == 0 {
        seq![]
    } else {
        links_in(texts.drop_last()) + url_links(texts.last())
    }
}

/// The most characters of a link that its button shows.
pub const LINK_LABEL_CHARS: usize = 40;

/// A button for a found link: the label it shows and the link it stands for.
pub open spec fn link_button(link: Seq<char>) -> (Seq<char>, Seq<char>) {
    (first_chars(link, LINK_LABEL_CHARS as nat), link)
}

/// The buttons offered for the links found in `texts` (window titles, then the clipboard):
/// one per link, in order, labelled with the link's first characters.
pub fn link_buttons(texts: &Vec<String>) -> (buttons: Vec<(String, String)>)
    ensures
        buttons.deep_view() == links_in(texts.deep_view()).map_values(|l: Seq<char>| link_button(l)),
        forall|k: int| 0 <= k < buttons@.len() ==> occurs_in("://"@, #[trigger] buttons.deep_view()[k].1),
{
    let ghost tv = texts.deep_view();
    let mut buttons: Vec<(String, String)> = Vec::new();
    for i in 0..texts.len()
        invariant
            tv == texts.deep_view(),
            buttons.deep_view() == links_in(tv.take(i as int)).map_values(|l: Seq<char>| link_button(l)),
            forall|j: int| 0 <= j < buttons@.len() ==> occurs_in("://"@, #[trigger] buttons.deep_view()[j].1),
    {
        assert(tv.take(i + 1).drop_last() =~= tv.take(i as int));
        let found = link_finder_str(texts[i].as_str());
        let ghost before = buttons.deep_view();
        for k in 0..found.len()
            invariant
                before == links_in(tv.take(i as int)).map_values(|l: Seq<char>| link_button(l)),
                buttons.deep_view() == before + found.deep_view().take(k as int).map_values(
                    |l: Seq<char>| link_button(l),
                ),
                forall|j: int| 0 <= j < found@.len() ==> occurs_in("://"@, #[trigger] found.deep_view()[j]),
                forall|j: int| 0 <= j < buttons@.len() ==> occurs_in("://"@, #[trigger] buttons.deep_view()[j].1),
        {
            let label = truncate_chars(found[k].as_str(), LINK_LABEL_CHARS);
            let link = found[k].clone();
            assert(link@ == found.deep_view()[k as int]);
            let ghost prev = buttons.deep_view();
            buttons.push((label, link));
            assert(buttons.deep_view() =~= prev.push(link_button(found.deep_view()[k as int])));
            assert(found.deep_view().take(k + 1).map_values(|l: Seq<char>| link_button(l))
                =~= found.deep_view().take(k as int).map_values(|l: Seq<char>| link_button(l)).push(
                link_button(found.deep_view()[k as int]),
            ));
            assert(buttons.deep_view() =~= before + found.deep_view().take(k + 1).map_values(
                |l: Seq<char>| link_button(l),
            ));
        }
        assert(found.deep_view().take(found@.len() as int) =~= found.deep_view());
        assert(links_in(tv.take(i + 1)).map_values(|l: Seq<char>| link_button(l)) =~= before
            + found.deep_view().map_values(|l: Seq<char>| link_button(l)));
    }
    assert(tv.take(texts@.len() as int) =~= tv);
    buttons
}


/// A link's button shows at most forty characters, and they are how the link begins.
pub proof fn lemma_link_button_label(link: Seq<char>)
    ensures
        link_button(link).0.len() <= LINK_LABEL_CHARS,
        link.take(link_button(link).0.len() as int) == link_button(link).0,
        link_button(link).1 == link,
{
    assert(link.take(link.len() as int) =~= link);
}


/// The links of one text are the links the finder gives for it.
pub proof fn lemma_links_in_one_text(t: Seq<char>)
    ensures
        links_in(seq![t]) == url_links(t),
{
    let one = seq![t];
    assert(one.drop_last() =~= Seq::<Seq<char>>::empty());
    assert(links_in(Seq::<Seq<char>>::empty()) + url_links(t) =~= url_links(t));
}

/// The links of two lists of texts, one after the other, are the links of the first list
/// followed by those of the second: every link found in every text is offered, once, in the
/// order of the texts.
pub proof fn lemma_links_in_concat(t1: Seq<Seq<char>>, t2: Seq<Seq<char>>)
    ensures
        links_in(t1 + t2) == links_in(t1) + links_in(t2),
    decreases t2.len(),
{
    if t2.len() == 0 {
        assert(t1 + t2 =~= t1);
        assert(links_in(t1) + links_in(t2) =~= links_in(t1));
    } else {
        lemma_links_in_concat(t1, t2.drop_last());
        assert((t1 + t2).drop_last() =~= t1 + t2.drop_last());
        assert((t1 + t2).last() == t2.last());
        assert(links_in(t1) + links_in(t2) =~= links_in(t1) + links_in(t2.drop_last()) + url_links(
            t2.last(),
        ));
    }
}

/// Every link found in every text is offered: the links of `texts` are those of the texts
/// before `texts[i]`, then all links of `texts[i]` in the finder's order, then those of the
/// texts after it. So link `k` of `texts[i]` stands right after the links of the texts before.
pub proof fn lemma_every_link_offered(texts: Seq<Seq<char>>, i: int)
    requires
        0 <= i < texts.len(),
    ensures
        links_in(texts) == links_in(texts.take(i)) + url_links(texts[i]) + links_in(
            texts.skip(i + 1),
        ),
        forall|k: int|
            0 <= k < url_links(texts[i]).len() ==> links_in(texts)[links_in(texts.take(i)).len() + k]
                == #[trigger] url_links(texts[i])[k],
{
    lemma_links_in_concat(texts.take(i), seq![texts[i]]);
    lemma_links_in_concat(texts.take(i) + seq![texts[i]], texts.skip(i + 1));
    lemma_links_in_one_text(texts[i]);
    assert(texts.take(i) + seq![texts[i]] + texts.skip(i + 1) =~= texts);
}

} // verus!
