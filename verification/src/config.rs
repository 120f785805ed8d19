//! Key bindings and their presentation.
//!
//! A key binding maps input chords to reader actions.  The binding also
//! renders itself as a small script that fills the help page's labels
//! once the document is ready, one label per action slot.

use vstd::prelude::*;

verus! {

/// A type with a built-in preset value.
pub trait Preset {
    /// The preset value.
    fn preset() -> Self where Self: core::marker::Sized;
}

/// What the reader does on an input.
#[derive(Debug, Clone, Copy, PartialEq, Eq)]
pub enum InputAction {
    /// Turn to the next page.
    PageNext,
    /// Turn to the previous page.
    PageLast,
    /// Turn a page leftward.
    PageLeft,
    /// Turn a page rightward.
    PageRight,
    /// Jump a step of pages forward.
    PageStepNext,
    /// Jump a step of pages backward.
    PageStepLast,
    /// Jump a step of pages leftward.
    PageStepLeft,
    /// Jump a step of pages rightward.
    PageStepRight,
    /// Go to the first page.
    PageHome,
    /// Go to the last page.
    PageEnd,
    /// Jump to an entered page.
    PageJump,
    /// Show one page fewer at a time.
    PageCountMinus,
    /// Show one page more at a time.
    PageCountPlus,
    /// Reverse the reading direction.
    ReverseReading,
    /// Open a container.
    Open,
    /// Toggle full screen.
    Fullscreen,
    /// Show the help page.
    ShowHelp,
    /// Hide the page number.
    HidePageNumber,
}

/// The key chords bound to each reader action.
pub struct KeyBind {
    page_next: Vec<String>,
    page_last: Vec<String>,
    page_left: Vec<String>,
    page_right: Vec<String>,
    page_step_next: Vec<String>,
    page_step_last: Vec<String>,
    page_step_left: Vec<String>,
    page_step_right: Vec<String>,
    page_home: Vec<String>,
    page_end: Vec<String>,
    page_jump: Vec<String>,
    page_count_minus: Vec<String>,
    page_count_plus: Vec<String>,
    reverse: Vec<String>,
    open: Vec<String>,
    fullscreen: Vec<String>,
    show_help: Vec<String>,
    hide_page_number: Vec<String>,
}

/// The mathematical value of a key list.
pub open spec fn str_views(s: Seq<String>) -> Seq<Seq<char>> {
    s.map_values(|k: String| k@)
}

/// The keys joined with a separator for display.
pub open spec fn joined_keys(keys: Seq<Seq<char>>) -> Seq<char>
    decreases keys.len(),
{
    if keys.len() == 0 {
        Seq::empty()
    } else if keys.len() == 1 {
        keys[0]
    } else {
        joined_keys(keys.drop_last()) + " / "@ + keys.last()
    }
}

/// The script line that fills one label: nothing for an unbound slot,
/// else an assignment of the joined keys to the label's element.
pub open spec fn line_of(idx: Seq<char>, keys: Seq<Seq<char>>) -> Seq<char> {
    if keys.len() == 0 {
        Seq::empty()
    } else {
        "document.getElementById('"@ + idx + "').textContent = `"@ + joined_keys(keys)
            + "`;\n"@
    }
}

impl KeyBind {
    /// The whole replacement script: a listener that, once the document
    /// is ready, fills each bound slot's label with its joined keys.
    pub closed spec fn script_of(&self) -> Seq<char> {
        "window.addEventListener('DOMContentLoaded', ()=>{"@ + line_of(
            "0"@,
            str_views(self.page_next@),
        ) + line_of("1"@, str_views(self.page_last@)) + line_of(
            "2"@,
            str_views(self.page_left@),
        ) + line_of("3"@, str_views(self.page_right@)) + line_of(
            "6"@,
            str_views(self.page_step_left@),
        ) + line_of("7"@, str_views(self.page_step_right@)) + line_of(
            "8"@,
            str_views(self.page_home@),
        ) + line_of("9"@, str_views(self.page_end@)) + line_of(
            "10"@,
            str_views(self.page_jump@),
        ) + line_of("11"@, str_views(self.page_count_minus@)) + line_of(
            "12"@,
            str_views(self.page_count_plus@),
        ) + line_of("13"@, str_views(self.reverse@)) + line_of(
            "14"@,
            str_views(self.open@),
        ) + line_of("15"@, str_views(self.fullscreen@)) + line_of(
            "16"@,
            str_views(self.show_help@),
        ) + line_of("17"@, str_views(self.hide_page_number@)) + "});"@
    }

    /// Every binding as `(key, action)` pairs, field by field, in the
    /// mathematical view.
    pub closed spec fn spec_pairs(&self) -> Seq<(Seq<char>, InputAction)> {
        tag_all(str_views(self.page_next@), InputAction::PageNext) + tag_all(
            str_views(self.page_last@),
            InputAction::PageLast,
        ) + tag_all(str_views(self.page_left@), InputAction::PageLeft) + tag_all(
            str_views(self.page_right@),
            InputAction::PageRight,
        ) + tag_all(str_views(self.page_step_next@), InputAction::PageStepNext) + tag_all(
            str_views(self.page_step_last@),
            InputAction::PageStepLast,
        ) + tag_all(str_views(self.page_step_left@), InputAction::PageStepLeft) + tag_all(
            str_views(self.page_step_right@),
            InputAction::PageStepRight,
        ) + tag_all(str_views(self.page_home@), InputAction::PageHome) + tag_all(
            str_views(self.page_end@),
            InputAction::PageEnd,
        ) + tag_all(str_views(self.page_jump@), InputAction::PageJump) + tag_all(
            str_views(self.page_count_minus@),
            InputAction::PageCountMinus,
        ) + tag_all(str_views(self.page_count_plus@), InputAction::PageCountPlus) + tag_all(
            str_views(self.reverse@),
            InputAction::ReverseReading,
        ) + tag_all(str_views(self.open@), InputAction::Open) + tag_all(
            str_views(self.fullscreen@),
            InputAction::Fullscreen,
        ) + tag_all(str_views(self.show_help@), InputAction::ShowHelp) + tag_all(
            str_views(self.hide_page_number@),
            InputAction::HidePageNumber,
        )
    }

    /// Renders the replacement script, exactly as the script value says:
    /// the document-ready listener around one label assignment per bound
    /// slot.
    pub fn to_replace_script(&self) -> (r: String)
        ensures
            r@ == self.script_of(),
    {
        let mut js = String::new();
        js.append("window.addEventListener('DOMContentLoaded', ()=>{");
        push_line(&mut js, "0", &self.page_next);
        push_line(&mut js, "1", &self.page_last);
        push_line(&mut js, "2", &self.page_left);
        push_line(&mut js, "3", &self.page_right);
        push_line(&mut js, "6", &self.page_step_left);
        push_line(&mut js, "7", &self.page_step_right);
        push_line(&mut js, "8", &self.page_home);
        push_line(&mut js, "9", &self.page_end);
        push_line(&mut js, "10", &self.page_jump);
        push_line(&mut js, "11", &self.page_count_minus);
        push_line(&mut js, "12", &self.page_count_plus);
        push_line(&mut js, "13", &self.reverse);
        push_line(&mut js, "14", &self.open);
        push_line(&mut js, "15", &self.fullscreen);
        push_line(&mut js, "16", &self.show_help);
        push_line(&mut js, "17", &self.hide_page_number);
        js.append("});");
        js
    }

    /// Every binding as a `(key, action)` pair, field by field.  A later
    /// pair overrides an earlier one when the caller builds a lookup
    /// table from the list.
    pub fn action_pairs(&self) -> (r: Vec<(String, InputAction)>)
        ensures
            pair_list_views(r@) == self.spec_pairs(),
    {
        let mut out: Vec<(String, InputAction)> = Vec::new();
        push_tagged(&mut out, &self.page_next, InputAction::PageNext);
        push_tagged(&mut out, &self.page_last, InputAction::PageLast);
        push_tagged(&mut out, &self.page_left, InputAction::PageLeft);
        push_tagged(&mut out, &self.page_right, InputAction::PageRight);
        push_tagged(&mut out, &self.page_step_next, InputAction::PageStepNext);
        push_tagged(&mut out, &self.page_step_last, InputAction::PageStepLast);
        push_tagged(&mut out, &self.page_step_left, InputAction::PageStepLeft);
        push_tagged(&mut out, &self.page_step_right, InputAction::PageStepRight);
        push_tagged(&mut out, &self.page_home, InputAction::PageHome);
        push_tagged(&mut out, &self.page_end, InputAction::PageEnd);
        push_tagged(&mut out, &self.page_jump, InputAction::PageJump);
        push_tagged(&mut out, &self.page_count_minus, InputAction::PageCountMinus);
        push_tagged(&mut out, &self.page_count_plus, InputAction::PageCountPlus);
        push_tagged(&mut out, &self.reverse, InputAction::ReverseReading);
        push_tagged(&mut out, &self.open, InputAction::Open);
        push_tagged(&mut out, &self.fullscreen, InputAction::Fullscreen);
        push_tagged(&mut out, &self.show_help, InputAction::ShowHelp);
        push_tagged(&mut out, &self.hide_page_number, InputAction::HidePageNumber);
        out
    }
}

/// Each key of a list paired with one action.
pub open spec fn tag_all(keys: Seq<Seq<char>>, a: InputAction) -> Seq<(Seq<char>, InputAction)> {
    keys.map_values(|k: Seq<char>| (k, a))
}

/// The mathematical value of a pair list.
pub open spec fn pair_list_views(s: Seq<(String, InputAction)>) -> Seq<(Seq<char>, InputAction)> {
    Seq::new(s.len(), |i: int| ((s[i].0)@, s[i].1))
}

/// Appends each key of a list, paired with one action.
fn push_tagged(out: &mut Vec<(String, InputAction)>, keys: &Vec<String>, a: InputAction)
    ensures
        pair_list_views(final(out)@) == pair_list_views(old(out)@) + tag_all(
            str_views(keys@),
            a,
        ),
{
    let ghost base = pair_list_views(out@);
    let mut k: usize = 0;
    while k < keys.len()
        invariant
            k <= keys@.len(),
            pair_list_views(out@) =~= base + tag_all(str_views(keys@.subrange(0, k as int)), a),
        decreases keys@.len() - k,
    {
        let key = keys[k].clone();
        let ghost pre = out@;
        let ghost kv = key@;
        out.push((key, a));
        proof {
            assert(kv == keys@[k as int]@);
            assert(out@ =~= pre.push((out@.last().0, a)));
            assert((out@.last().0)@ == kv);
            assert(pair_list_views(out@) =~= pair_list_views(pre).push((kv, a)));
            assert(str_views(keys@.subrange(0, k + 1 as int)) =~= str_views(
                keys@.subrange(0, k as int),
            ).push(keys@[k as int]@));
            assert(tag_all(str_views(keys@.subrange(0, k + 1 as int)), a) =~= tag_all(
                str_views(keys@.subrange(0, k as int)),
                a,
            ).push((kv, a)));
            assert(pair_list_views(out@) =~= base + tag_all(
                str_views(keys@.subrange(0, k + 1 as int)),
                a,
            ));
        }
        k = k + 1;
    }
    proof {
        assert(keys@.subrange(0, keys@.len() as int) =~= keys@);
        assert(pair_list_views(out@) =~= base + tag_all(str_views(keys@), a));
    }
}

/// The keys joined with the display separator.
fn join_keys(keys: &Vec<String>) -> (r: String)
    ensures
        r@ == joined_keys(str_views(keys@)),
{
    let mut out = String::new();
    let mut k: usize = 0;
    proof {
        assert(joined_keys(str_views(keys@.subrange(0, 0))) =~= Seq::<char>::empty());
        assert(str_views(keys@.subrange(0, 0)).len() == 0);
    }
    while k < keys.len()
        invariant
            k <= keys@.len(),
            out@ =~= joined_keys(str_views(keys@.subrange(0, k as int))),
        decreases keys@.len() - k,
    {
        if k > 0 {
            out.append(" / ");
        }
        out.append(keys[k].as_str());
        proof {
            let pre = str_views(keys@.subrange(0, k as int));
            let cur = str_views(keys@.subrange(0, k + 1 as int));
            assert(cur.drop_last() =~= pre);
            assert(cur.last() == keys@[k as int]@);
            if k == 0 {
                assert(cur.len() == 1);
                assert(out@ =~= cur[0]);
            }
        }
        k = k + 1;
    }
    proof {
        assert(keys@.subrange(0, keys@.len() as int) =~= keys@);
    }
    out
}

/// Appends one label-filling line for a slot, or nothing when the slot
/// has no keys.
fn push_line(js: &mut String, idx: &str, keys: &Vec<String>)
    ensures
        final(js)@ == old(js)@ + line_of(idx@, str_views(keys@)),
{
    if keys.len() == 0 {
        proof {
            assert(old(js)@ + line_of(idx@, str_views(keys@)) =~= old(js)@);
        }
        return ;
    }
    let joined = join_keys(keys);
    js.append("document.getElementById('");
    js.append(idx);
    js.append("').textContent = `");
    js.append(joined.as_str());
    js.append("`;\n");
    proof {
        assert(final(js)@ =~= old(js)@ + line_of(idx@, str_views(keys@)));
    }
}

impl Preset for KeyBind {
    /// The built-in binding: arrows, numpad and paging keys for
    /// navigation, with single letters for the toggles.
    fn preset() -> Self {
        let page_next = vec![
            String::from_str("PageDown"),
            String::from_str("ArrowDown"),
            String::from_str("Numpad2"),
            String::from_str("LeftClick"),
            String::from_str("WheelDown"),
            String::from_str("Space"),
        ];
        let page_last = vec![
            String::from_str("PageUp"),
            String::from_str("ArrowUp"),
            String::from_str("Numpad8"),
            String::from_str("RightClick"),
            String::from_str("WheelUp"),
        ];
        let page_left = vec![String::from_str("ArrowLeft"), String::from_str("Numpad4")];
        let page_right = vec![String::from_str("ArrowRight"), String::from_str("Numpad6")];
        let page_step_next: Vec<String> = Vec::new();
        let page_step_last: Vec<String> = Vec::new();
        let page_step_left = vec![String::from_str("Comma")];
        let page_step_right = vec![String::from_str("Period")];
        let page_home = vec![String::from_str("Home")];
        let page_end = vec![String::from_str("End")];
        let page_jump = vec![String::from_str("KeyJ")];
        let page_count_minus = vec![
            String::from_str("Minus"),
            String::from_str("NumpadSubtract"),
        ];
        let page_count_plus = vec![String::from_str("Equal"), String::from_str("NumpadAdd")];
        let reverse = vec![String::from_str("KeyR")];
        let open = vec![String::from_str("KeyO")];
        let fullscreen = vec![String::from_str("F11"), String::from_str("KeyF")];
        let show_help = vec![String::from_str("KeyH")];
        let hide_page_number = vec![String::from_str("KeyI")];

        KeyBind {
            page_next,
            page_last,
            page_left,
            page_right,
            page_step_next,
            page_step_last,
            page_step_left,
            page_step_right,
            page_home,
            page_end,
            page_jump,
            page_count_minus,
            page_count_plus,
            reverse,
            open,
            fullscreen,
            show_help,
            hide_page_number,
        }
    }
}

} // verus!
