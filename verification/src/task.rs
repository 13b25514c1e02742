use vstd::prelude::*;

verus! {

/// A single to-do item. The `id` is assigned by the store on insertion and is
/// immutable thereafter; `title` is set at creation and never mutated by the
/// store; `tag` and `status` are free text (the store imposes no vocabulary).
pub struct Task {
    pub id: i32,
    pub title: String,
    pub tag: String,
    pub status: String,
}

/// The mathematical value of a `Task`: its id as an unbounded integer and the
/// character sequences of its three text fields.
#[verifier::ext_equal]
pub ghost struct TaskView {
    pub id: int,
    pub title: Seq<char>,
    pub tag: Seq<char>,
    pub status: Seq<char>,
}

impl View for Task {
    type V = TaskView;

    open spec fn view(&self) -> TaskView {
        TaskView { id: self.id as int, title: self.title@, tag: self.tag@, status: self.status@ }
    }
}

impl Clone for Task {
    fn clone(&self) -> (r: Self)
        ensures
            r@ == self@,
    {
        Task {
            id: self.id,
            title: self.title.clone(),
            tag: self.tag.clone(),
            status: self.status.clone(),
        }
    }
}

} // verus!
