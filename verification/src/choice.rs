//! The running list of choices that the wheel has landed on.

use vstd::prelude::*;
use vstd::string::*;

verus! {

/// The separator between two choices in the shown text.
pub open spec fn choice_separator() -> Seq<char> {
    ", "@
}

/// `parts` joined into one text with `sep` between each two of them.
pub open spec fn joined(parts: Seq<Seq<char>>, sep: Seq<char>) -> Seq<char>
    decreases parts.len(),
{
    if parts.len() == 0 {
        Seq::empty()
    } else if parts.len() == 1 {
        parts[0]
    } else {
        joined(parts.drop_last(), sep) + sep + parts.last()
    }
}

/// The views of a sequence of strings.
pub open spec fn strings_view(strings: Seq<String>) -> Seq<Seq<char>> {
    strings.map_values(|s: String| s@)
}

/// The texts in `parts`, joined with `", "` between each two of them.
pub fn join_choices(parts: &Vec<String>) -> (text: String)
    ensures
        text@ == joined(strings_view(parts@), choice_separator()),
{
    let sep: &str = ", ";
    let ghost views = strings_view(parts@);
    let mut text = String::new();
    for i in 0..parts.len()
        invariant
            views == strings_view(parts@),
            sep@ == choice_separator(),
            text@ == joined(views.take(i as int), sep@),
    {
        assert(views.take(i + 1).drop_last() =~= views.take(i as int));
        if i != 0 {
            text.append(sep);
        } else {
            assert(text@ =~= Seq::<char>::empty());
        }
        text.append(parts[i].as_str());
    }
    assert(views.take(parts.len() as int) =~= views);
    text
}

/// The choices made so far, in order.
pub struct ChoiceLabel {
    pub selected: Vec<String>,
}

impl View for ChoiceLabel {
    type V = Seq<Seq<char>>;

    open spec fn view(&self) -> Seq<Seq<char>> {
        strings_view(self.selected@)
    }
}

impl ChoiceLabel {
    /// A label with no choice yet.
    pub fn new() -> (label: ChoiceLabel)
        ensures
            label@ == Seq::<Seq<char>>::empty(),
    {
        let label = ChoiceLabel { selected: Vec::new() };
        assert(label@ =~= Seq::<Seq<char>>::empty());
        label
    }

    /// Forgets every choice.
    pub fn on_clear_choices(&mut self)
        ensures
            final(self)@ == Seq::<Seq<char>>::empty(),
    {
        self.selected.clear();
        assert(self@ =~= Seq::<Seq<char>>::empty());
    }

    /// Records `choice` after the earlier ones and returns the text to show:
    /// every choice so far, separated by `", "`.
    pub fn on_choice(&mut self, choice: String) -> (text: String)
        ensures
            final(self)@ == old(self)@.push(choice@),
            text@ == joined(final(self)@, choice_separator()),
    {
        self.selected.push(choice);
        assert(self@ =~= old(self)@.push(choice@));
        join_choices(&self.selected)
    }
}

/// After the choices were cleared, the first choice is shown alone.
pub proof fn lemma_first_choice_alone(choice: Seq<char>)
    ensures
        joined(Seq::<Seq<char>>::empty().push(choice), choice_separator()) == choice,
{
    assert(Seq::<Seq<char>>::empty().push(choice).len() == 1);
}

/// Each later choice extends the shown text by the separator and the choice.
pub proof fn lemma_next_choice_appends(parts: Seq<Seq<char>>, choice: Seq<char>)
    requires
        parts.len() > 0,
    ensures
        joined(parts.push(choice), choice_separator()) == joined(parts, choice_separator())
            + choice_separator() + choice,
{
    assert(parts.push(choice).drop_last() =~= parts);
}

} // verus!
