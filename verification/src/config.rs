//! The settings that the pool reads, and the settings that a seat gets.

use vstd::prelude::*;

verus! {

/// The texts of a list of strings.
pub open spec fn texts(list: Seq<String>) -> Seq<Seq<char>> {
    list.map_values(|s: String| s@)
}

/// The text of an optional string.
pub open spec fn optional_text(s: Option<String>) -> Option<Seq<char>> {
    match s {
        Some(s) => Some(s@),
        None => None,
    }
}

/// Compositor settings.
pub struct CompositorConfig {
    /// GPU pool for concurrent seats; empty in single-seat mode.
    pub gpus: Vec<String>,
    /// GPU to run on.
    pub gpu: Option<String>,
    /// Template of a seat's HOME, with `{owner}` and `{seat}` placeholders.
    pub seat_home_template: Option<String>,
    /// Shared Steam library folders to register in a fresh seat HOME.
    pub seat_steam_libraries: Vec<String>,
}

/// What a [`CompositorConfig`] holds, as texts.
#[verifier::ext_equal]
pub struct CompositorView {
    pub gpus: Seq<Seq<char>>,
    pub gpu: Option<Seq<char>>,
    pub seat_home_template: Option<Seq<char>>,
    pub seat_steam_libraries: Seq<Seq<char>>,
}

impl View for CompositorConfig {
    type V = CompositorView;

    open spec fn view(&self) -> CompositorView {
        CompositorView {
            gpus: texts(self.gpus@),
            gpu: optional_text(self.gpu),
            seat_home_template: optional_text(self.seat_home_template),
            seat_steam_libraries: texts(self.seat_steam_libraries@),
        }
    }
}

/// Video stream settings: the UDP port, 0 for one that the OS picks.
#[derive(Debug, Clone, Copy, PartialEq, Eq, Structural)]
pub struct VideoStreamConfig {
    pub port: u16,
}

/// Audio stream settings: the UDP port, 0 for one that the OS picks.
#[derive(Debug, Clone, Copy, PartialEq, Eq, Structural)]
pub struct AudioStreamConfig {
    pub port: u16,
}

/// Control stream settings: the UDP port, 0 for one that the OS picks.
#[derive(Debug, Clone, Copy, PartialEq, Eq, Structural)]
pub struct ControlStreamConfig {
    pub port: u16,
}

/// Copies an optional string.
pub fn copy_optional(s: &Option<String>) -> (r: Option<String>)
    ensures
        optional_text(r) == optional_text(*s),
{
    match s {
        Some(s) => Some(s.clone()),
        None => None,
    }
}

/// Copies a list of strings.
pub fn copy_strings(list: &Vec<String>) -> (r: Vec<String>)
    ensures
        texts(r@) == texts(list@),
{
    let mut r: Vec<String> = Vec::new();
    let mut i: usize = 0;
    while i < list.len()
        invariant
            i <= list@.len(),
            r@ == list@.take(i as int),
        decreases list@.len() - i,
    {
        r.push(list[i].clone());
        i += 1;
        assert(r@ =~= list@.take(i as int));
    }
    assert(list@.take(i as int) =~= list@);
    r
}

/// A list of strings stands for its texts, one for each and in order.
pub proof fn law_texts_one_for_one(list: Seq<String>)
    ensures
        texts(list).len() == list.len(),
        forall|i: int| 0 <= i < list.len() ==> #[trigger] texts(list)[i] == list[i]@,
{
}

/// Compositor settings stand for what each of their fields holds.
pub proof fn law_compositor_holds_its_fields(config: CompositorConfig)
    ensures
        config@.gpus.len() == config.gpus@.len(),
        forall|i: int| 0 <= i < config.gpus@.len() ==> #[trigger] config@.gpus[i] == config.gpus@[i]@,
        config@.gpu is Some <==> config.gpu is Some,
        config.gpu matches Some(gpu) ==> config@.gpu == Some(gpu@),
        config@.seat_home_template is Some <==> config.seat_home_template is Some,
        config.seat_home_template matches Some(t) ==> config@.seat_home_template == Some(t@),
        config@.seat_steam_libraries.len() == config.seat_steam_libraries@.len(),
        forall|i: int|
            0 <= i < config.seat_steam_libraries@.len()
                ==> #[trigger] config@.seat_steam_libraries[i] == config.seat_steam_libraries@[i]@,
{
}

} // verus!
