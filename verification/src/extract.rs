//! The answer-extraction engine: a fixed, ordered set of independent
//! widget-recognition rules applied to a parsed document.  Every rule scans
//! the whole document and appends its matches, in rule order and then in
//! document order within a rule.
use vstd::prelude::*;
use vstd::string::StringExecFns;

use crate::codec::{decode_grouping, decoded_grouping};
use crate::dom::{attr_of, Document, DocumentView, ElementView};
use crate::text::{normalize_text, remove_extra_newlines, split_commas, split_commas_spec};

verus! {

/// An element gated on a `correct="true"` attribute, as the direct-test,
/// select and image rules require.
pub open spec fn correct_pred(tag: Seq<char>) -> spec_fn(ElementView) -> bool {
    |e: ElementView| e.tag == tag && attr_of(e.attrs, "correct"@) == Some("true"@)
}

/// An element recognized by tag alone.
pub open spec fn tag_pred(tag: Seq<char>) -> spec_fn(ElementView) -> bool {
    |e: ElementView| e.tag == tag
}

/// A drag source whose `answer-id` equals the referenced identifier.
pub open spec fn drag_pred(id: Seq<char>) -> spec_fn(ElementView) -> bool {
    |e: ElementView| e.tag == "vim-dnd-text-drag"@ && attr_of(e.attrs, "answer-id"@) == Some(id)
}

/// The texts of the matching elements, in document order.
pub open spec fn texts_matching(els: Seq<ElementView>, p: spec_fn(ElementView) -> bool) -> Seq<
    Seq<char>,
>
    decreases els.len(),
{
    if els.len() == 0 {
        Seq::<Seq<char>>::empty()
    } else {
        texts_matching(els.drop_last(), p) + if p(els.last()) {
            seq![els.last().text]
        } else {
            Seq::<Seq<char>>::empty()
        }
    }
}

proof fn lemma_texts_matching_take(els: Seq<ElementView>, p: spec_fn(ElementView) -> bool, i: int)
    requires
        0 <= i < els.len(),
    ensures
        texts_matching(els.take(i + 1), p) == texts_matching(els.take(i), p) + (if p(els[i]) {
            seq![els[i].text]
        } else {
            Seq::<Seq<char>>::empty()
        }),
{
    assert(els.take(i + 1).drop_last() =~= els.take(i));
    assert(els.take(i + 1).last() == els[i]);
}

/// The end (exclusive, clamped to the list) of the subtree owned by the
/// element at index `i`.
pub open spec fn subtree_end(els: Seq<ElementView>, i: int) -> int {
    if i + 1 + els[i].descendant_elems > els.len() {
        els.len() as int
    } else {
        i + 1 + els[i].descendant_elems
    }
}

/// The text of the first element in `j .. end` that `p` accepts.
pub open spec fn first_text_in(
    els: Seq<ElementView>,
    p: spec_fn(ElementView) -> bool,
    j: int,
    end: int,
) -> Option<Seq<char>>
    decreases end - j,
{
    if j < 0 || j >= end || j >= els.len() {
        None
    } else if p(els[j]) {
        Some(els[j].text)
    } else {
        first_text_in(els, p, j + 1, end)
    }
}

/// The canonical free-input answer of the container at index `i`: the text
/// of the first input item nested beneath it.
pub open spec fn input_answer_at(els: Seq<ElementView>, i: int) -> Option<Seq<char>> {
    first_text_in(els, tag_pred("vim-input-item"@), i + 1, subtree_end(els, i))
}

/// The free-input answers of the containers among the first `n` elements.
pub open spec fn free_input_answers_upto(els: Seq<ElementView>, n: int) -> Seq<Seq<char>>
    decreases n,
{
    if n <= 0 {
        Seq::<Seq<char>>::empty()
    } else {
        free_input_answers_upto(els, n - 1) + if els[n - 1].tag == "vim-input-answers"@ {
            match input_answer_at(els, n - 1) {
                Some(t) => seq![t],
                None => Seq::<Seq<char>>::empty(),
            }
        } else {
            Seq::<Seq<char>>::empty()
        }
    }
}

/// The text of the first drag source matching the identifier, if any.
pub open spec fn drag_text(els: Seq<ElementView>, id: Seq<char>) -> Option<Seq<char>> {
    first_text_in(els, drag_pred(id), 0, els.len() as int)
}

/// The texts the referenced drag sources contribute, in identifier order;
/// an identifier with no matching source contributes nothing.
pub open spec fn resolved_drags(els: Seq<ElementView>, ids: Seq<Seq<char>>) -> Seq<Seq<char>>
    decreases ids.len(),
{
    if ids.len() == 0 {
        Seq::<Seq<char>>::empty()
    } else {
        resolved_drags(els, ids.drop_last()) + match drag_text(els, ids.last()) {
            Some(t) => seq![t],
            None => Seq::<Seq<char>>::empty(),
        }
    }
}

proof fn lemma_resolved_drags_take(els: Seq<ElementView>, ids: Seq<Seq<char>>, k: int)
    requires
        0 <= k < ids.len(),
    ensures
        resolved_drags(els, ids.take(k + 1)) == resolved_drags(els, ids.take(k)) + (match drag_text(
            els,
            ids[k],
        ) {
            Some(t) => seq![t],
            None => Seq::<Seq<char>>::empty(),
        }),
{
    assert(ids.take(k + 1).drop_last() =~= ids.take(k));
    assert(ids.take(k + 1).last() == ids[k]);
}

/// What the drop element at index `i` contributes: the texts of the drag
/// sources its `drag-ids` attribute references, in listed order.
pub open spec fn drop_answers_at(els: Seq<ElementView>, i: int) -> Seq<Seq<char>> {
    if els[i].tag == "vim-dnd-text-drop"@ {
        match attr_of(els[i].attrs, "drag-ids"@) {
            Some(ids) => resolved_drags(els, split_commas_spec(ids)),
            None => Seq::<Seq<char>>::empty(),
        }
    } else {
        Seq::<Seq<char>>::empty()
    }
}

/// The drag-and-drop answers of the first `n` elements.
pub open spec fn dnd_answers_upto(els: Seq<ElementView>, n: int) -> Seq<Seq<char>>
    decreases n,
{
    if n <= 0 {
        Seq::<Seq<char>>::empty()
    } else {
        dnd_answers_upto(els, n - 1) + drop_answers_at(els, n - 1)
    }
}

/// The decoded payload of the grouping element at index `i`, when its
/// `text` attribute decodes; a failed decode contributes nothing.
pub open spec fn grouping_answer_at(els: Seq<ElementView>, i: int) -> Option<Seq<char>> {
    if els[i].tag == "vim-groups-item"@ {
        match attr_of(els[i].attrs, "text"@) {
            Some(enc) => decoded_grouping(enc),
            None => None,
        }
    } else {
        None
    }
}

/// The grouping answers of the first `n` elements.
pub open spec fn grouping_answers_upto(els: Seq<ElementView>, n: int) -> Seq<Seq<char>>
    decreases n,
{
    if n <= 0 {
        Seq::<Seq<char>>::empty()
    } else {
        grouping_answers_upto(els, n - 1) + match grouping_answer_at(els, n - 1) {
            Some(t) => seq![t],
            None => Seq::<Seq<char>>::empty(),
        }
    }
}

/// Rule order: direct-correct test items, ordered-sentence items,
/// free-input items, select items, image items (suffixed), drag-and-drop
/// joins, math inputs, grouping payloads.
pub open spec fn all_answers(d: DocumentView) -> Seq<Seq<char>> {
    texts_matching(d.elements, correct_pred("vim-test-item"@)) + texts_matching(
        d.elements,
        tag_pred("vim-order-sentence-verify-item"@),
    ) + free_input_answers_upto(d.elements, d.elements.len() as int) + texts_matching(
        d.elements,
        correct_pred("vim-select-item"@),
    ) + texts_matching(d.elements, correct_pred("vim-test-image-item"@)).map_values(
        |t: Seq<char>| t + " - Correct"@,
    ) + dnd_answers_upto(d.elements, d.elements.len() as int) + texts_matching(
        d.elements,
        tag_pred("math-input-answer"@),
    ) + grouping_answers_upto(d.elements, d.elements.len() as int)
}

fn add_correct_texts(doc: &Document, tag: &String, acc: Vec<String>) -> (r: Vec<String>)
    ensures
        r.deep_view() == acc.deep_view() + texts_matching(doc@.elements, correct_pred(tag@)),
{
    let ghost els = doc@.elements;
    let ghost p = correct_pred(tag@);
    let key: String = "correct".to_owned();
    let tru: String = "true".to_owned();
    let n = doc.elements.len();
    let mut out = acc;
    let ghost acc0 = out.deep_view();
    let mut i: usize = 0;
    proof {
        assert(els.take(0) =~= Seq::<ElementView>::empty());
        assert(out.deep_view() =~~= acc0 + texts_matching(els.take(0), p));
    }
    while i < n
        invariant
            n == doc.elements@.len(),
            els == doc@.elements,
            els.len() == n,
            p == correct_pred(tag@),
            key@ == "correct"@,
            tru@ == "true"@,
            i <= n,
            out.deep_view() == acc0 + texts_matching(els.take(i as int), p),
        decreases n - i,
    {
        let e = &doc.elements[i];
        proof {
            assert(els[i as int] == doc.elements@[i as int]@);
        }
        let matched = if e.tag == *tag {
            match e.attr(&key) {
                Some(val) => val == tru,
                None => false,
            }
        } else {
            false
        };
        proof {
            assert(matched == p(els[i as int]));
            lemma_texts_matching_take(els, p, i as int);
        }
        if matched {
            let ghost prev = out.deep_view();
            out.push(e.text.clone());
            proof {
                assert(out.deep_view() =~~= prev.push(els[i as int].text));
                assert(out.deep_view() =~~= acc0 + texts_matching(els.take(i as int + 1), p));
            }
        } else {
            proof {
                assert(texts_matching(els.take(i as int + 1), p) =~~= texts_matching(
                    els.take(i as int),
                    p,
                ));
            }
        }
        i = i + 1;
    }
    proof {
        assert(els.take(n as int) =~= els);
    }
    out
}

fn add_tagged_texts(doc: &Document, tag: &String, acc: Vec<String>) -> (r: Vec<String>)
    ensures
        r.deep_view() == acc.deep_view() + texts_matching(doc@.elements, tag_pred(tag@)),
{
    let ghost els = doc@.elements;
    let ghost p = tag_pred(tag@);
    let n = doc.elements.len();
    let mut out = acc;
    let ghost acc0 = out.deep_view();
    let mut i: usize = 0;
    proof {
        assert(els.take(0) =~= Seq::<ElementView>::empty());
        assert(out.deep_view() =~~= acc0 + texts_matching(els.take(0), p));
    }
    while i < n
        invariant
            n == doc.elements@.len(),
            els == doc@.elements,
            els.len() == n,
            p == tag_pred(tag@),
            i <= n,
            out.deep_view() == acc0 + texts_matching(els.take(i as int), p),
        decreases n - i,
    {
        let e = &doc.elements[i];
        proof {
            assert(els[i as int] == doc.elements@[i as int]@);
            lemma_texts_matching_take(els, p, i as int);
        }
        if e.tag == *tag {
            let ghost prev = out.deep_view();
            out.push(e.text.clone());
            proof {
                assert(out.deep_view() =~~= prev.push(els[i as int].text));
                assert(out.deep_view() =~~= acc0 + texts_matching(els.take(i as int + 1), p));
            }
        } else {
            proof {
                assert(texts_matching(els.take(i as int + 1), p) =~~= texts_matching(
                    els.take(i as int),
                    p,
                ));
            }
        }
        i = i + 1;
    }
    proof {
        assert(els.take(n as int) =~= els);
    }
    out
}

fn add_image_texts(doc: &Document, acc: Vec<String>) -> (r: Vec<String>)
    ensures
        r.deep_view() == acc.deep_view() + texts_matching(
            doc@.elements,
            correct_pred("vim-test-image-item"@),
        ).map_values(|t: Seq<char>| t + " - Correct"@),
{
    let ghost els = doc@.elements;
    let ghost p = correct_pred("vim-test-image-item"@);
    let ghost f = (|t: Seq<char>| t + " - Correct"@);
    let tag: String = "vim-test-image-item".to_owned();
    let key: String = "correct".to_owned();
    let tru: String = "true".to_owned();
    let n = doc.elements.len();
    let mut out = acc;
    let ghost acc0 = out.deep_view();
    let mut i: usize = 0;
    proof {
        assert(els.take(0) =~= Seq::<ElementView>::empty());
        assert(out.deep_view() =~~= acc0 + texts_matching(els.take(0), p).map_values(f));
    }
    while i < n
        invariant
            n == doc.elements@.len(),
            els == doc@.elements,
            els.len() == n,
            p == correct_pred("vim-test-image-item"@),
            f == (|t: Seq<char>| t + " - Correct"@),
            tag@ == "vim-test-image-item"@,
            key@ == "correct"@,
            tru@ == "true"@,
            i <= n,
            out.deep_view() == acc0 + texts_matching(els.take(i as int), p).map_values(f),
        decreases n - i,
    {
        let e = &doc.elements[i];
        proof {
            assert(els[i as int] == doc.elements@[i as int]@);
        }
        let matched = if e.tag == tag {
            match e.attr(&key) {
                Some(val) => val == tru,
                None => false,
            }
        } else {
            false
        };
        proof {
            assert(matched == p(els[i as int]));
            lemma_texts_matching_take(els, p, i as int);
        }
        if matched {
            let ghost prev = out.deep_view();
            let wrapped = e.text.clone().concat(" - Correct");
            out.push(wrapped);
            proof {
                assert(out.deep_view() =~~= prev.push(f(els[i as int].text)));
                assert(out.deep_view() =~~= acc0 + texts_matching(els.take(i as int + 1), p)
                    .map_values(f));
            }
        } else {
            proof {
                assert(texts_matching(els.take(i as int + 1), p).map_values(f) =~~= texts_matching(
                    els.take(i as int),
                    p,
                ).map_values(f));
            }
        }
        i = i + 1;
    }
    proof {
        assert(els.take(n as int) =~= els);
    }
    out
}

/// Scans `start .. end` for the first element with the given tag.
fn first_tagged_text(doc: &Document, tag: &String, start: usize, end: usize) -> (r: Option<String>)
    requires
        end <= doc@.elements.len(),
    ensures
        r.deep_view() == first_text_in(doc@.elements, tag_pred(tag@), start as int, end as int),
{
    let ghost els = doc@.elements;
    let ghost p = tag_pred(tag@);
    if start >= end {
        return None;
    }
    let mut j = start;
    while j < end
        invariant
            els == doc@.elements,
            doc.elements@.len() == els.len(),
            end <= els.len(),
            start <= j <= end,
            first_text_in(els, p, start as int, end as int) == first_text_in(
                els,
                p,
                j as int,
                end as int,
            ),
            p == tag_pred(tag@),
        decreases end - j,
    {
        let e = &doc.elements[j];
        proof {
            assert(els[j as int] == doc.elements@[j as int]@);
        }
        if e.tag == *tag {
            return Some(e.text.clone());
        }
        j = j + 1;
    }
    None
}

fn add_free_input_texts(doc: &Document, acc: Vec<String>) -> (r: Vec<String>)
    ensures
        r.deep_view() == acc.deep_view() + free_input_answers_upto(
            doc@.elements,
            doc@.elements.len() as int,
        ),
{
    let ghost els = doc@.elements;
    let cont_tag: String = "vim-input-answers".to_owned();
    let item_tag: String = "vim-input-item".to_owned();
    let n = doc.elements.len();
    let mut out = acc;
    let ghost acc0 = out.deep_view();
    let mut i: usize = 0;
    proof {
        assert(out.deep_view() =~~= acc0 + free_input_answers_upto(els, 0));
    }
    while i < n
        invariant
            n == doc.elements@.len(),
            els == doc@.elements,
            els.len() == n,
            cont_tag@ == "vim-input-answers"@,
            item_tag@ == "vim-input-item"@,
            i <= n,
            out.deep_view() == acc0 + free_input_answers_upto(els, i as int),
        decreases n - i,
    {
        let e = &doc.elements[i];
        proof {
            assert(els[i as int] == doc.elements@[i as int]@);
        }
        if e.tag == cont_tag {
            let d = e.descendant_elems;
            let end = if d > n - i - 1 {
                n
            } else {
                i + 1 + d
            };
            proof {
                assert(end as int == subtree_end(els, i as int));
            }
            let item = first_tagged_text(doc, &item_tag, i + 1, end);
            match item {
                Some(t) => {
                    let ghost prev = out.deep_view();
                    out.push(t);
                    proof {
                        assert(input_answer_at(els, i as int) == Some(t@));
                        assert(out.deep_view() =~~= prev.push(t@));
                        assert(out.deep_view() =~~= acc0 + free_input_answers_upto(
                            els,
                            i as int + 1,
                        ));
                    }
                },
                None => {
                    proof {
                        assert(input_answer_at(els, i as int) is None);
                        assert(free_input_answers_upto(els, i as int + 1) =~~=
                            free_input_answers_upto(els, i as int));
                    }
                },
            }
        } else {
            proof {
                assert(free_input_answers_upto(els, i as int + 1) =~~= free_input_answers_upto(
                    els,
                    i as int,
                ));
            }
        }
        i = i + 1;
    }
    out
}

/// Scans the whole document for the drag source carrying the identifier.
fn find_drag_text(doc: &Document, id: &String) -> (r: Option<String>)
    ensures
        r.deep_view() == drag_text(doc@.elements, id@),
{
    let ghost els = doc@.elements;
    let ghost p = drag_pred(id@);
    let drag_tag: String = "vim-dnd-text-drag".to_owned();
    let key: String = "answer-id".to_owned();
    let n = doc.elements.len();
    let mut j: usize = 0;
    while j < n
        invariant
            n == doc.elements@.len(),
            els == doc@.elements,
            els.len() == n,
            drag_tag@ == "vim-dnd-text-drag"@,
            key@ == "answer-id"@,
            j <= n,
            p == drag_pred(id@),
            first_text_in(els, p, 0, n as int) == first_text_in(els, p, j as int, n as int),
        decreases n - j,
    {
        let e = &doc.elements[j];
        proof {
            assert(els[j as int] == doc.elements@[j as int]@);
        }
        let matched = if e.tag == drag_tag {
            match e.attr(&key) {
                Some(val) => val == *id,
                None => false,
            }
        } else {
            false
        };
        proof {
            assert(matched == p(els[j as int]));
        }
        if matched {
            return Some(e.text.clone());
        }
        j = j + 1;
    }
    None
}

fn add_dnd_texts(doc: &Document, acc: Vec<String>) -> (r: Vec<String>)
    ensures
        r.deep_view() == acc.deep_view() + dnd_answers_upto(
            doc@.elements,
            doc@.elements.len() as int,
        ),
{
    let ghost els = doc@.elements;
    let drop_tag: String = "vim-dnd-text-drop".to_owned();
    let ids_key: String = "drag-ids".to_owned();
    let n = doc.elements.len();
    let mut out = acc;
    let ghost acc0 = out.deep_view();
    let mut i: usize = 0;
    proof {
        assert(out.deep_view() =~~= acc0 + dnd_answers_upto(els, 0));
    }
    while i < n
        invariant
            n == doc.elements@.len(),
            els == doc@.elements,
            els.len() == n,
            drop_tag@ == "vim-dnd-text-drop"@,
            ids_key@ == "drag-ids"@,
            i <= n,
            out.deep_view() == acc0 + dnd_answers_upto(els, i as int),
        decreases n - i,
    {
        let e = &doc.elements[i];
        proof {
            assert(els[i as int] == doc.elements@[i as int]@);
        }
        if e.tag == drop_tag {
            match e.attr(&ids_key) {
                Some(ids_str) => {
                    let ids = split_commas(ids_str.as_str());
                    let ghost idsv = split_commas_spec(ids_str@);
                    let ghost base = out.deep_view();
                    let m = ids.len();
                    let mut k: usize = 0;
                    proof {
                        assert(idsv.take(0) =~= Seq::<Seq<char>>::empty());
                        assert(out.deep_view() =~~= base + resolved_drags(els, idsv.take(0)));
                    }
                    while k < m
                        invariant
                            m == ids@.len(),
                            els == doc@.elements,
                            ids.deep_view() == idsv,
                            k <= m,
                            idsv.len() == m,
                            out.deep_view() == base + resolved_drags(els, idsv.take(k as int)),
                        decreases m - k,
                    {
                        let t = find_drag_text(doc, &ids[k]);
                        proof {
                            assert(ids@[k as int]@ == idsv[k as int]);
                            lemma_resolved_drags_take(els, idsv, k as int);
                        }
                        match t {
                            Some(text) => {
                                let ghost prev = out.deep_view();
                                out.push(text);
                                proof {
                                    assert(out.deep_view() =~~= prev.push(
                                        drag_text(els, idsv[k as int])->0,
                                    ));
                                    assert(out.deep_view() =~~= base + resolved_drags(
                                        els,
                                        idsv.take(k as int + 1),
                                    ));
                                }
                            },
                            None => {
                                proof {
                                    assert(resolved_drags(els, idsv.take(k as int + 1)) =~~=
                                        resolved_drags(els, idsv.take(k as int)));
                                }
                            },
                        }
                        k = k + 1;
                    }
                    proof {
                        assert(idsv.take(m as int) =~= idsv);
                        assert(drop_answers_at(els, i as int) == resolved_drags(els, idsv));
                        assert(out.deep_view() =~~= acc0 + dnd_answers_upto(els, i as int + 1));
                    }
                },
                None => {
                    proof {
                        assert(drop_answers_at(els, i as int) =~~= Seq::<Seq<char>>::empty());
                        assert(dnd_answers_upto(els, i as int + 1) =~~= dnd_answers_upto(
                            els,
                            i as int,
                        ));
                    }
                },
            }
        } else {
            proof {
                assert(drop_answers_at(els, i as int) =~~= Seq::<Seq<char>>::empty());
                assert(dnd_answers_upto(els, i as int + 1) =~~= dnd_answers_upto(els, i as int));
            }
        }
        i = i + 1;
    }
    out
}

fn add_grouping_texts(doc: &Document, acc: Vec<String>) -> (r: Vec<String>)
    ensures
        r.deep_view() == acc.deep_view() + grouping_answers_upto(
            doc@.elements,
            doc@.elements.len() as int,
        ),
{
    let ghost els = doc@.elements;
    let groups_tag: String = "vim-groups-item".to_owned();
    let text_key: String = "text".to_owned();
    let n = doc.elements.len();
    let mut out = acc;
    let ghost acc0 = out.deep_view();
    let mut i: usize = 0;
    proof {
        assert(out.deep_view() =~~= acc0 + grouping_answers_upto(els, 0));
    }
    while i < n
        invariant
            n == doc.elements@.len(),
            els == doc@.elements,
            els.len() == n,
            groups_tag@ == "vim-groups-item"@,
            text_key@ == "text"@,
            i <= n,
            out.deep_view() == acc0 + grouping_answers_upto(els, i as int),
        decreases n - i,
    {
        let e = &doc.elements[i];
        proof {
            assert(els[i as int] == doc.elements@[i as int]@);
        }
        let decoded = if e.tag == groups_tag {
            match e.attr(&text_key) {
                Some(enc) => decode_grouping(&enc),
                None => None,
            }
        } else {
            None
        };
        proof {
            assert(decoded.deep_view() == grouping_answer_at(els, i as int));
        }
        match decoded {
            Some(t) => {
                let ghost prev = out.deep_view();
                out.push(t);
                proof {
                    assert(out.deep_view() =~~= prev.push(grouping_answer_at(els, i as int)->0));
                    assert(out.deep_view() =~~= acc0 + grouping_answers_upto(els, i as int + 1));
                }
            },
            None => {
                proof {
                    assert(grouping_answers_upto(els, i as int + 1) =~~= grouping_answers_upto(
                        els,
                        i as int,
                    ));
                }
            },
        }
        i = i + 1;
    }
    out
}

/// One task's extracted result: the normalized question text, the answers
/// in rule order, and the task's 1-based number.
#[derive(Debug)]
pub struct TaskAnswer {
    pub question: String,
    pub answers: Vec<String>,
    pub task_number: usize,
}

/// The extraction engine for one task set, identified by its opaque hash.
pub struct SkyAnswers {
    task_hash: String,
}

impl SkyAnswers {
    /// The hash this extractor was created for.
    pub closed spec fn spec_task_hash(&self) -> Seq<char> {
        self.task_hash@
    }

    pub fn new(task_hash: String) -> (r: Self)
        ensures
            r.spec_task_hash() == task_hash@,
    {
        SkyAnswers { task_hash }
    }

    /// The whole document's text, normalized: trimmed, newline runs
    /// collapsed.
    pub fn extract_task_full_question(&self, document: &Document) -> (r: String)
        ensures
            r@ == normalize_text(document@.text),
    {
        remove_extra_newlines(document.text.as_str())
    }

    /// Applies every extraction rule to the document, in rule order, and
    /// pairs the collected answers with the normalized question text.
    pub fn get_task_answer(&self, document: &Document, task_number: usize) -> (r: TaskAnswer)
        ensures
            r.task_number == task_number,
            r.question@ == normalize_text(document@.text),
            r.answers.deep_view() == all_answers(document@),
    {
        let t_test: String = "vim-test-item".to_owned();
        let t_order: String = "vim-order-sentence-verify-item".to_owned();
        let t_select: String = "vim-select-item".to_owned();
        let t_math: String = "math-input-answer".to_owned();
        let answers: Vec<String> = Vec::new();
        let ghost e0 = answers.deep_view();
        let answers = add_correct_texts(document, &t_test, answers);
        let answers = add_tagged_texts(document, &t_order, answers);
        let answers = add_free_input_texts(document, answers);
        let answers = add_correct_texts(document, &t_select, answers);
        let answers = add_image_texts(document, answers);
        let answers = add_dnd_texts(document, answers);
        let answers = add_tagged_texts(document, &t_math, answers);
        let answers = add_grouping_texts(document, answers);
        proof {
            assert(e0 =~~= Seq::<Seq<char>>::empty());
            assert(answers.deep_view() =~~= all_answers(document@));
        }
        let question = self.extract_task_full_question(document);
        TaskAnswer { question, answers, task_number }
    }
}

/// The tags any extraction rule recognizes.
pub open spec fn is_widget_tag(t: Seq<char>) -> bool {
    ||| t == "vim-test-item"@
    ||| t == "vim-order-sentence-verify-item"@
    ||| t == "vim-input-answers"@
    ||| t == "vim-select-item"@
    ||| t == "vim-test-image-item"@
    ||| t == "vim-dnd-text-drop"@
    ||| t == "math-input-answer"@
    ||| t == "vim-groups-item"@
}

proof fn lemma_texts_matching_none(els: Seq<ElementView>, p: spec_fn(ElementView) -> bool)
    requires
        forall|i: int| 0 <= i < els.len() ==> !p(#[trigger] els[i]),
    ensures
        texts_matching(els, p) == Seq::<Seq<char>>::empty(),
    decreases els.len(),
{
    if els.len() > 0 {
        lemma_texts_matching_none(els.drop_last(), p);
        assert(texts_matching(els, p) =~~= Seq::<Seq<char>>::empty());
    }
}

proof fn lemma_free_input_none(els: Seq<ElementView>, n: int)
    requires
        forall|i: int| 0 <= i < els.len() ==> #[trigger] els[i].tag != "vim-input-answers"@,
        n <= els.len(),
    ensures
        free_input_answers_upto(els, n) == Seq::<Seq<char>>::empty(),
    decreases n,
{
    if n > 0 {
        lemma_free_input_none(els, n - 1);
        assert(free_input_answers_upto(els, n) =~~= Seq::<Seq<char>>::empty());
    }
}

proof fn lemma_dnd_none(els: Seq<ElementView>, n: int)
    requires
        forall|i: int| 0 <= i < els.len() ==> #[trigger] els[i].tag != "vim-dnd-text-drop"@,
        n <= els.len(),
    ensures
        dnd_answers_upto(els, n) == Seq::<Seq<char>>::empty(),
    decreases n,
{
    if n > 0 {
        lemma_dnd_none(els, n - 1);
        assert(dnd_answers_upto(els, n) =~~= Seq::<Seq<char>>::empty());
    }
}

proof fn lemma_grouping_none(els: Seq<ElementView>, n: int)
    requires
        forall|i: int| 0 <= i < els.len() ==> #[trigger] els[i].tag != "vim-groups-item"@,
        n <= els.len(),
    ensures
        grouping_answers_upto(els, n) == Seq::<Seq<char>>::empty(),
    decreases n,
{
    if n > 0 {
        lemma_grouping_none(els, n - 1);
        assert(grouping_answers_upto(els, n) =~~= Seq::<Seq<char>>::empty());
    }
}

proof fn lemma_texts_matching_has(els: Seq<ElementView>, p: spec_fn(ElementView) -> bool, i: int)
    requires
        0 <= i < els.len(),
        p(els[i]),
    ensures
        exists|k: int|
            0 <= k < texts_matching(els, p).len() && texts_matching(els, p)[k] == els[i].text,
    decreases els.len(),
{
    if i == els.len() - 1 {
        assert(texts_matching(els, p)[texts_matching(els, p).len() - 1] == els[i].text);
    } else {
        assert(els.drop_last()[i] == els[i]);
        lemma_texts_matching_has(els.drop_last(), p, i);
        let k = choose|k: int|
            0 <= k < texts_matching(els.drop_last(), p).len() && texts_matching(
                els.drop_last(),
                p,
            )[k] == els[i].text;
        assert(texts_matching(els, p)[k] == els[i].text);
    }
}

/// Rule independence: a document holding both a direct-correct test item
/// and a math-input element yields a match for each, concatenated with
/// the direct-correct text strictly before the math-input text, as rule
/// order demands.
pub proof fn lemma_rule_independence(d: DocumentView, i: int, j: int)
    requires
        0 <= i < d.elements.len(),
        d.elements[i].tag == "vim-test-item"@,
        attr_of(d.elements[i].attrs, "correct"@) == Some("true"@),
        0 <= j < d.elements.len(),
        d.elements[j].tag == "math-input-answer"@,
    ensures
        exists|a: int, b: int|
            0 <= a < b < all_answers(d).len() && all_answers(d)[a] == d.elements[i].text
                && all_answers(d)[b] == d.elements[j].text,
{
    let els = d.elements;
    let p1 = correct_pred("vim-test-item"@);
    let p7 = tag_pred("math-input-answer"@);
    assert(p1(els[i]));
    assert(p7(els[j]));
    lemma_texts_matching_has(els, p1, i);
    lemma_texts_matching_has(els, p7, j);
    let s1 = texts_matching(els, p1);
    let s7 = texts_matching(els, p7);
    let a = choose|a: int| 0 <= a < s1.len() && s1[a] == els[i].text;
    let k = choose|k: int| 0 <= k < s7.len() && s7[k] == els[j].text;
    let off = s1.len() + texts_matching(els, tag_pred("vim-order-sentence-verify-item"@)).len()
        + free_input_answers_upto(els, els.len() as int).len() + texts_matching(
        els,
        correct_pred("vim-select-item"@),
    ).len() + texts_matching(els, correct_pred("vim-test-image-item"@)).map_values(
        |t: Seq<char>| t + " - Correct"@,
    ).len() + dnd_answers_upto(els, els.len() as int).len();
    let b = off + k;
    assert(all_answers(d)[a] == s1[a]);
    assert(all_answers(d)[b] == s7[k]);
    assert(0 <= a < b < all_answers(d).len());
}

/// A document holding no recognized widget element yields no answers at
/// all, whatever its text; the question text is extracted independently.
pub proof fn lemma_no_widgets_no_answers(d: DocumentView)
    requires
        forall|i: int| 0 <= i < d.elements.len() ==> !is_widget_tag(#[trigger] d.elements[i].tag),
    ensures
        all_answers(d) == Seq::<Seq<char>>::empty(),
{
    let els = d.elements;
    lemma_texts_matching_none(els, correct_pred("vim-test-item"@));
    lemma_texts_matching_none(els, tag_pred("vim-order-sentence-verify-item"@));
    lemma_free_input_none(els, els.len() as int);
    lemma_texts_matching_none(els, correct_pred("vim-select-item"@));
    lemma_texts_matching_none(els, correct_pred("vim-test-image-item"@));
    lemma_dnd_none(els, els.len() as int);
    lemma_texts_matching_none(els, tag_pred("math-input-answer"@));
    lemma_grouping_none(els, els.len() as int);
    assert(all_answers(d) =~~= Seq::<Seq<char>>::empty());
}

} // verus!
