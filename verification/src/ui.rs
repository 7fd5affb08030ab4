//! The event protocol between the background watcher and the display loop,
//! and the display loop's dispatch decision for each event.
//!
//! The display surface itself (window, webview, input handling) sits outside
//! this crate; the dispatch function decides what is staged and what the
//! surface is to be told, and hands both back as plain values.

use crate::assets::{spec_page, spec_page_path, Assets};
use crate::scroll::{parse_scroll, scroll_of_title};
use vstd::prelude::*;

verus! {

/// Events that trigger display changes, sent by the background watcher and
/// consumed in order by the single display loop.
pub enum Event {
    /// Load the given rendered HTML into the display surface.
    LoadHtml(String),
    /// Refresh the display surface's current page in place.
    Reload,
}

/// What the display loop is to do with the display surface after handling
/// one event.
pub enum DispatchAction {
    /// Write the document (second field) to the file at the path (first
    /// field), then navigate the display surface to that file.
    Navigate(String, String),
    /// Reload the currently loaded resource in place, staging nothing.
    ReloadCurrent,
}

/// The display loop's handling of one event, short of touching the display
/// surface itself.
///
/// A `LoadHtml` event stages the rendered output as a fresh page that opens
/// at the scroll offset the surface last reported through its title side
/// channel (`title`); a `Reload` event asks for an in-place reload and
/// stages nothing.
/// The URI under which the display surface is told to load a staged file.
pub fn file_uri(path: &str) -> (uri: String)
    ensures
        uri@ == "file://"@ + path@,
{
    let mut uri = String::new();
    uri.append("file://");
    uri.append(path);
    proof {
        assert(uri@ =~= "file://"@ + path@);
    }
    uri
}

pub fn dispatch(assets: &mut Assets, event: Event, title: Option<&str>) -> (action:
    DispatchAction)
    requires
        old(assets).counter < u64::MAX,
    ensures
        final(assets).dir == old(assets).dir,
        match event {
            Event::LoadHtml(html) => {
                &&& final(assets).counter == old(assets).counter + 1
                &&& action matches DispatchAction::Navigate(path, document)
                    && path@ == spec_page_path(old(assets).dir@, old(assets).counter as nat)
                    && document@ == spec_page(html@, scroll_of_title(title))
            },
            Event::Reload => {
                &&& *final(assets) == *old(assets)
                &&& action is ReloadCurrent
            },
        },
{
    match event {
        Event::LoadHtml(html) => {
            let scroll_top = parse_scroll(title);
            let (path, document) = assets.build(html.as_str(), scroll_top);
            DispatchAction::Navigate(path, document)
        },
        Event::Reload => DispatchAction::ReloadCurrent,
    }
}

} // verus!
