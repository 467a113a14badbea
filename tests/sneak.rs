use duat_sneak::labels::generate_labels;
use duat_sneak::matches::{default_focus, filter_by_label, Span};
use duat_sneak::pattern::search_key;
use duat_sneak::sneak::{Action, Key, Sneak, SneakError, Step, ALT};

fn chars(s: &str) -> Vec<char> {
    s.chars().collect()
}

fn spans(n: usize) -> Vec<Span> {
    (0..n).map(|i| Span { start: 3 * i, end: 3 * i + 2 }).collect()
}

/// A session that has typed a full two-character pattern and awaits the search.
fn searching_ab(sneak: &mut Sneak) {
    let none: Vec<char> = Vec::new();
    assert_eq!(sneak.send_key(Key::Char('a'), &none), Action::Search);
    assert_eq!(sneak.found(spans(4), 0), Action::Highlight(1));
    assert_eq!(sneak.send_key(Key::Char('b'), &none), Action::Search);
}

#[test]
fn labels_lengths() {
    for n in 0..77 {
        assert_eq!(generate_labels(n).len(), n);
    }
    assert_eq!(generate_labels(77).len(), 76);
    assert_eq!(generate_labels(676).len(), 676);
}

#[test]
fn labels_up_to_one_alphabet() {
    assert_eq!(generate_labels(0), Vec::<char>::new());
    assert_eq!(generate_labels(1), chars("a"));
    assert_eq!(generate_labels(2), chars("ab"));
    assert_eq!(generate_labels(25), chars("abcdefghijklmnopqrstuvwxy"));
    assert_eq!(generate_labels(26), chars("bcdefghijklmnopqrstuvwxyza"));
    let l = generate_labels(20);
    for i in 0..l.len() {
        for j in i + 1..l.len() {
            assert_ne!(l[i], l[j]);
        }
    }
}

#[test]
fn labels_grouped_past_one_alphabet() {
    assert_eq!(generate_labels(27), chars("bcdefghijklmnopqrstuvwxyzaa"));
    let mut expected = chars("cdefghijklmnopqrstuvwxyz");
    expected.extend(std::iter::repeat('a').take(26));
    expected.extend(chars("bb"));
    assert_eq!(generate_labels(52), expected);
    for n in [27usize, 52, 100, 400] {
        let l = generate_labels(n);
        for i in 0..l.len() {
            for k in i + 1..l.len() {
                if l[i] == l[k] {
                    for j in i..k {
                        assert_eq!(l[j], l[i]);
                    }
                }
            }
        }
    }
}

#[test]
fn focus_first_after_caret() {
    let ms = vec![Span { start: 0, end: 2 }, Span { start: 2, end: 4 }, Span { start: 4, end: 6 }];
    assert_eq!(default_focus(&ms, 3), Some(2));
    assert_eq!(default_focus(&ms, 0), Some(1));
    assert_eq!(default_focus(&ms, 4), Some(2));
    assert_eq!(default_focus(&ms, 9), Some(2));
    assert_eq!(default_focus(&Vec::new(), 9), None);
}

#[test]
fn search_keys() {
    assert_eq!(search_key(&chars("a"), 2), chars("a[^\n]{1}"));
    assert_eq!(search_key(&chars("ab"), 2), chars("ab[^\n]{0}"));
    assert_eq!(search_key(&chars("."), 3), chars("\\.[^\n]{2}"));
    assert_eq!(search_key(&chars("q"), 12), chars("q[^\n]{11}"));
    assert_eq!(search_key(&chars("xyz"), 2), chars("xyz[^\n]{0}"));
}

#[test]
fn label_filter_by_key() {
    let ms = spans(8);
    assert_eq!(filter_by_label(&ms, 'c'), vec![ms[2]]);
    assert_eq!(filter_by_label(&ms, 'z'), Vec::new());
    let ms = spans(30);
    assert_eq!(filter_by_label(&ms, 'a'), ms[25..30].to_vec());
    assert_eq!(filter_by_label(&ms, 'b'), vec![ms[0]]);
}

#[test]
fn defaults() {
    let none: Vec<char> = Vec::new();
    let mut plain = Sneak::new(false);
    searching_ab(&mut plain);
    assert_eq!(plain.found(spans(3), 100), Action::Highlight(2));
    assert_eq!(plain.send_key(Key::Char('N'), &none), Action::Refocus(2, 1));
    let mut alt = Sneak::new(true);
    searching_ab(&mut alt);
    assert_eq!(alt.found(spans(3), 100), Action::Highlight(2));
    assert_eq!(alt.send_key(Key::Modified('n', ALT), &none), Action::Refocus(2, 1));
    assert_eq!(alt.send_key(Key::Char('n'), &none), Action::Refocus(1, 2));
}

#[test]
fn single_match_commits_at_once() {
    let none: Vec<char> = Vec::new();
    let mut sneak = Sneak::new(false);
    assert_eq!(sneak.send_key(Key::Char('a'), &none), Action::Search);
    assert_eq!(sneak.search_key(), chars("a[^\n]{1}"));
    assert_eq!(sneak.found(spans(1), 0), Action::Highlight(0));
    assert!(matches!(sneak.step(), Step::Filtering(_)));
    assert_eq!(sneak.send_key(Key::Char('b'), &none), Action::Search);
    assert_eq!(sneak.search_key(), chars("ab[^\n]{0}"));
    let one = vec![Span { start: 7, end: 9 }];
    assert_eq!(sneak.found(one, 0), Action::Commit(Span { start: 7, end: 9 }));
    assert!(matches!(sneak.step(), Step::Done(_)));
    assert_eq!(sneak.pattern(), chars("ab"));
}

#[test]
fn length_one_is_complete_at_once() {
    let none: Vec<char> = Vec::new();
    let mut sneak = Sneak::new(false).with_len(1);
    assert_eq!(sneak.send_key(Key::Char('q'), &none), Action::Search);
    assert_eq!(sneak.search_key(), chars("q[^\n]{0}"));
    assert!(matches!(sneak.step(), Step::Searching(_, true)));
}

#[test]
fn cyclic_navigation_wraps() {
    let none: Vec<char> = Vec::new();
    let mut sneak = Sneak::new(false);
    searching_ab(&mut sneak);
    assert_eq!(sneak.found(spans(3), 100), Action::Highlight(2));
    assert!(matches!(sneak.step(), Step::Navigating(_, _, 2)));
    assert_eq!(sneak.send_key(Key::Char('n'), &none), Action::Refocus(2, 0));
    assert_eq!(sneak.send_key(Key::Char('N'), &none), Action::Refocus(0, 2));
    assert_eq!(sneak.send_key(Key::Other(9), &none), Action::Commit(spans(3)[2]));
}

#[test]
fn custom_select_keys() {
    let none: Vec<char> = Vec::new();
    let mut sneak = Sneak::new(false).select_keys(';', ',');
    searching_ab(&mut sneak);
    assert_eq!(sneak.found(spans(3), 4), Action::Highlight(2));
    assert_eq!(sneak.send_key(Key::Char(','), &none), Action::Refocus(2, 0));
    assert_eq!(sneak.send_key(Key::Char(';'), &none), Action::Refocus(0, 2));
    assert_eq!(sneak.send_key(Key::Char('n'), &none), Action::Commit(spans(3)[2]));
}

#[test]
fn label_filtering_commits() {
    let none: Vec<char> = Vec::new();
    let mut sneak = Sneak::new(false).min_for_labels(8);
    searching_ab(&mut sneak);
    assert_eq!(sneak.found(spans(8), 0), Action::Label);
    assert_eq!(sneak.matches(), spans(8));
    assert_eq!(generate_labels(sneak.matches().len()), chars("abcdefgh"));
    assert_eq!(sneak.send_key(Key::Char('c'), &none), Action::Commit(spans(8)[2]));
}

#[test]
fn label_filtering_recomputes_labels() {
    let none: Vec<char> = Vec::new();
    let mut sneak = Sneak::new(false).min_for_labels(8);
    searching_ab(&mut sneak);
    let ms = spans(30);
    assert_eq!(sneak.found(ms.clone(), 0), Action::Label);
    assert_eq!(sneak.send_key(Key::Char('a'), &none), Action::Label);
    assert!(matches!(sneak.step(), Step::LabelFiltering(_, _)));
    assert_eq!(sneak.matches(), ms[25..30].to_vec());
    assert_eq!(generate_labels(5), chars("abcde"));
    assert_eq!(sneak.send_key(Key::Char('e'), &none), Action::Commit(ms[29]));
}

#[test]
fn below_label_threshold_cycles() {
    let mut sneak = Sneak::new(false).min_for_labels(8);
    searching_ab(&mut sneak);
    assert_eq!(sneak.found(spans(7), 0), Action::Highlight(1));
    assert!(matches!(sneak.step(), Step::Navigating(_, _, 1)));
}

#[test]
fn invalid_label_aborts() {
    let none: Vec<char> = Vec::new();
    let mut sneak = Sneak::new(false).min_for_labels(8);
    searching_ab(&mut sneak);
    assert_eq!(sneak.found(spans(8), 0), Action::Label);
    assert_eq!(
        sneak.send_key(Key::Char('z'), &none),
        Action::Abort(SneakError::InvalidLabel(Key::Char('z')))
    );
    let mut other = Sneak::new(false).min_for_labels(2);
    searching_ab(&mut other);
    assert_eq!(other.found(spans(2), 0), Action::Label);
    assert_eq!(
        other.send_key(Key::Other(3), &none),
        Action::Abort(SneakError::InvalidLabel(Key::Other(3)))
    );
}

#[test]
fn memory_round_trip() {
    let none: Vec<char> = Vec::new();
    let mut last: Vec<char> = Vec::new();
    let mut first = Sneak::new(false);
    assert_eq!(first.send_key(Key::Char('x'), &last), Action::Search);
    assert_eq!(first.found(spans(2), 0), Action::Highlight(1));
    assert_eq!(first.send_key(Key::Char('y'), &none), Action::Search);
    assert_eq!(first.found(vec![Span { start: 1, end: 3 }], 0), Action::Commit(Span { start: 1, end: 3 }));
    first.before_exit(&mut last);
    assert_eq!(last, chars("xy"));

    let mut second = Sneak::new(false);
    assert_eq!(second.send_key(Key::Other(0), &last), Action::Search);
    assert!(matches!(second.step(), Step::Searching(_, true)));
    assert_eq!(second.pattern(), chars("xy"));
    assert_eq!(second.search_key(), chars("xy[^\n]{0}"));
    assert_eq!(second.found(spans(3), 0), Action::Highlight(1));
    assert!(matches!(second.step(), Step::Navigating(_, _, 1)));
}

#[test]
fn memory_kept_when_nothing_typed() {
    let mut last = chars("qq");
    let sneak = Sneak::new(false);
    sneak.before_exit(&mut last);
    assert_eq!(last, chars("qq"));
}

#[test]
fn no_history_aborts() {
    let none: Vec<char> = Vec::new();
    let mut sneak = Sneak::new(false);
    assert_eq!(sneak.send_key(Key::Other(1), &none), Action::Abort(SneakError::NoHistory));
    let mut last = chars("zz");
    sneak.before_exit(&mut last);
    assert_eq!(last, chars("zz"));
}

#[test]
fn zero_matches_abort() {
    let none: Vec<char> = Vec::new();
    let mut sneak = Sneak::new(false);
    assert_eq!(sneak.send_key(Key::Char('a'), &none), Action::Search);
    assert_eq!(sneak.found(Vec::new(), 0), Action::Abort(SneakError::NoMatch));
    assert!(matches!(sneak.step(), Step::Done(_)));
    let mut last: Vec<char> = Vec::new();
    sneak.before_exit(&mut last);
    assert_eq!(last, chars("a"));

    let mut full = Sneak::new(false);
    searching_ab(&mut full);
    assert_eq!(full.found(Vec::new(), 0), Action::Abort(SneakError::NoMatch));
    assert_eq!(full.send_key(Key::Char('n'), &none), Action::Ignored);
}

#[test]
fn filtering_cut_short() {
    let none: Vec<char> = Vec::new();
    let mut sneak = Sneak::new(false).with_len(3);
    assert_eq!(sneak.send_key(Key::Char('a'), &none), Action::Search);
    assert_eq!(sneak.found(spans(3), 0), Action::Highlight(1));
    assert_eq!(sneak.send_key(Key::Other(5), &none), Action::Search);
    assert!(matches!(sneak.step(), Step::Searching(_, true)));
    assert_eq!(sneak.search_key(), chars("a[^\n]{2}"));
    assert_eq!(sneak.found(vec![Span { start: 4, end: 7 }], 0), Action::Commit(Span { start: 4, end: 7 }));
}

#[test]
fn events_out_of_turn_are_ignored() {
    let none: Vec<char> = Vec::new();
    let mut sneak = Sneak::new(false);
    assert_eq!(sneak.found(spans(2), 0), Action::Ignored);
    assert!(matches!(sneak.step(), Step::Start));
    assert_eq!(sneak.send_key(Key::Char('a'), &none), Action::Search);
    assert_eq!(sneak.send_key(Key::Char('b'), &none), Action::Ignored);
    assert_eq!(sneak.pattern(), chars("a"));
}
