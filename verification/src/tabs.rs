//! The tab strip and the address bar as one state machine. Pages are held
//! in order; a page is either a browsing tab (one engine view, identified
//! by an id that outlives its position) or a settings page, which is not
//! navigable. At most one page is current. Engine callbacks carry the tab
//! id they belong to, and the address bar changes only for the tab that is
//! current when the callback arrives; what a background tab reported is
//! shown when that tab becomes current. The widget tree and the engine
//! itself stay outside: methods return the URL to load, and the caller
//! feeds reported URL and title changes back in.

use vstd::prelude::*;
use crate::ENGINE_COUNT;
use crate::engines::{home_page, spec_home_page};
use crate::resolve::{resolve, spec_resolve};

verus! {

/// One browsing tab: its identity, the last URL its engine view reported
/// (none until the first report), and the title shown in its label.
pub struct Tab {
    pub id: u64,
    pub url: Option<String>,
    pub title: String,
}

/// One page of the tab strip.
pub enum Page {
    Web(Tab),
    Settings,
}

/// Model of a tab.
#[verifier::ext_equal]
pub struct TabModel {
    pub id: int,
    pub url: Option<Seq<char>>,
    pub title: Seq<char>,
}

/// Model of a page.
#[verifier::ext_equal]
pub enum PageModel {
    Web(TabModel),
    Settings,
}

/// Model of the whole browser window state.
#[verifier::ext_equal]
pub struct BrowserModel {
    pub pages: Seq<PageModel>,
    pub current: Option<int>,
    pub address_bar: Seq<char>,
    pub engine: int,
    pub next_id: int,
}

impl View for Tab {
    type V = TabModel;

    open spec fn view(&self) -> TabModel {
        TabModel {
            id: self.id as int,
            url: match self.url {
                Some(u) => Some(u@),
                None => None,
            },
            title: self.title@,
        }
    }
}

impl View for Page {
    type V = PageModel;

    open spec fn view(&self) -> PageModel {
        match self {
            Page::Web(t) => PageModel::Web(t@),
            Page::Settings => PageModel::Settings,
        }
    }
}

/// The tab of a page known to be a browsing tab.
pub open spec fn page_tab(p: PageModel) -> TabModel
    recommends
        p is Web,
{
    match p {
        PageModel::Web(t) => t,
        PageModel::Settings => arbitrary(),
    }
}

/// The browsing tab with this id sits at position `j`.
pub open spec fn tab_at(pages: Seq<PageModel>, j: int, id: int) -> bool {
    0 <= j < pages.len() && pages[j] is Web && page_tab(pages[j]).id == id
}

/// Well-formed browser state: the current index points at a page and is
/// absent only for an empty strip, the engine index is in range, and tab
/// ids are unique and below the next id to hand out.
pub open spec fn model_wf(m: BrowserModel) -> bool {
    &&& match m.current {
        Some(i) => 0 <= i < m.pages.len(),
        None => true,
    }
    &&& (m.current is None ==> m.pages.len() == 0)
    &&& 0 <= m.engine < ENGINE_COUNT
    &&& 0 <= m.next_id
    &&& forall|j: int|
        #![trigger m.pages[j]]
        0 <= j < m.pages.len() && m.pages[j] is Web ==> page_tab(m.pages[j]).id < m.next_id
    &&& forall|j: int, k: int|
        #![trigger m.pages[j], m.pages[k]]
        0 <= j < k < m.pages.len() && m.pages[j] is Web && m.pages[k] is Web ==> page_tab(
            m.pages[j],
        ).id != page_tab(m.pages[k]).id
}

/// The address bar after a page becomes (or stays) current: the page's
/// last-known URL when it is a browsing tab that has reported one, the
/// previous text otherwise.
pub open spec fn synced_address_bar(
    pages: Seq<PageModel>,
    current: Option<int>,
    prev: Seq<char>,
) -> Seq<char> {
    match current {
        Some(i) => if 0 <= i < pages.len() {
            match pages[i] {
                PageModel::Web(t) => match t.url {
                    Some(u) => u,
                    None => prev,
                },
                PageModel::Settings => prev,
            }
        } else {
            prev
        },
        None => prev,
    }
}

/// Opening a tab: a fresh tab goes to the end of the strip and becomes
/// current. Its URL is unknown until the engine reports one, so the
/// address bar keeps its text.
pub open spec fn spec_open_tab(m: BrowserModel) -> BrowserModel {
    BrowserModel {
        pages: m.pages.push(
            PageModel::Web(TabModel { id: m.next_id, url: None, title: "New Tab"@ }),
        ),
        current: Some(m.pages.len() as int),
        next_id: m.next_id + 1,
        ..m
    }
}

/// Opening the settings page: it goes to the end of the strip and becomes
/// current; it is not navigable, so the address bar keeps its text.
pub open spec fn spec_open_settings(m: BrowserModel) -> BrowserModel {
    BrowserModel {
        pages: m.pages.push(PageModel::Settings),
        current: Some(m.pages.len() as int),
        ..m
    }
}

/// Closing the page at a position. Out of range, nothing happens. The
/// remaining pages keep their order; when the current page is the one
/// closed, the next page takes its place (the previous one when the last
/// page was closed); the address bar is then resynchronized from the page
/// that is current after the removal.
pub open spec fn spec_close_page(m: BrowserModel, index: int) -> BrowserModel {
    if !(0 <= index < m.pages.len()) {
        m
    } else {
        let pages = m.pages.remove(index);
        let current = if pages.len() == 0 {
            None
        } else {
            match m.current {
                Some(c) => if c < index {
                    Some(c)
                } else if c > index {
                    Some(c - 1)
                } else if index < pages.len() {
                    Some(index)
                } else {
                    Some(pages.len() - 1)
                },
                None => None,
            }
        };
        BrowserModel {
            pages,
            current,
            address_bar: synced_address_bar(pages, current, m.address_bar),
            ..m
        }
    }
}

/// Switching to the page at a position makes it current and shows its
/// last-known URL when it is a browsing tab that has one.
pub open spec fn spec_switch_to(m: BrowserModel, index: int) -> BrowserModel {
    if !(0 <= index < m.pages.len()) {
        m
    } else {
        BrowserModel {
            current: Some(index),
            address_bar: synced_address_bar(m.pages, Some(index), m.address_bar),
            ..m
        }
    }
}

/// A URL report from the engine view of the tab with this id: that tab's
/// last-known URL is updated wherever the tab sits, and the address bar
/// only when that tab is the current page. A report for a closed tab does
/// nothing.
pub open spec fn spec_on_uri_changed(m: BrowserModel, id: int, uri: Seq<char>) -> BrowserModel {
    if exists|j: int| tab_at(m.pages, j, id) {
        let j = choose|j: int| tab_at(m.pages, j, id);
        let t = page_tab(m.pages[j]);
        BrowserModel {
            pages: m.pages.update(j, PageModel::Web(TabModel { url: Some(uri), ..t })),
            address_bar: if m.current == Some(j) {
                uri
            } else {
                m.address_bar
            },
            ..m
        }
    } else {
        m
    }
}

/// A title report from the engine view of the tab with this id: only that
/// tab's label changes, never the address bar. A report for a closed tab
/// does nothing.
pub open spec fn spec_on_title_changed(m: BrowserModel, id: int, title: Seq<char>) -> BrowserModel {
    if exists|j: int| tab_at(m.pages, j, id) {
        let j = choose|j: int| tab_at(m.pages, j, id);
        let t = page_tab(m.pages[j]);
        BrowserModel { pages: m.pages.update(j, PageModel::Web(TabModel { title, ..t })), ..m }
    } else {
        m
    }
}

/// Selecting a search engine; an out-of-range index does nothing.
pub open spec fn spec_select_engine(m: BrowserModel, index: int) -> BrowserModel {
    if 0 <= index < ENGINE_COUNT {
        BrowserModel { engine: index, ..m }
    } else {
        m
    }
}

/// The id of the current page's tab, when the current page is a browsing
/// tab.
pub open spec fn spec_current_tab_id(m: BrowserModel) -> Option<int> {
    match m.current {
        Some(i) => if 0 <= i < m.pages.len() && m.pages[i] is Web {
            Some(page_tab(m.pages[i]).id)
        } else {
            None
        },
        None => None,
    }
}

/// The browser window state: the ordered pages, which one is current, the
/// address bar, and the selected search engine.
pub struct Browser {
    pub pages: Vec<Page>,
    pub current: Option<usize>,
    pub address_bar: String,
    pub engine: usize,
    pub next_id: u64,
}

impl View for Browser {
    type V = BrowserModel;

    open spec fn view(&self) -> BrowserModel {
        BrowserModel {
            pages: self.pages@.map_values(|p: Page| p@),
            current: match self.current {
                Some(i) => Some(i as int),
                None => None,
            },
            address_bar: self.address_bar@,
            engine: self.engine as int,
            next_id: self.next_id as int,
        }
    }
}

impl Browser {
    /// A browser with no pages yet, using the given engine selection.
    pub fn new(engine_index: usize) -> (b: Browser)
        requires
            engine_index < ENGINE_COUNT,
        ensures
            model_wf(b@),
            b@.pages =~= Seq::<PageModel>::empty(),
            b@.current is None,
            b@.address_bar =~= Seq::<char>::empty(),
            b@.engine == engine_index,
            b@.next_id == 0,
    {
        let b = Browser {
            pages: Vec::new(),
            current: None,
            address_bar: String::new(),
            engine: engine_index,
            next_id: 0,
        };
        proof {
            assert(b@.pages =~= Seq::<PageModel>::empty());
        }
        b
    }

    /// Open a fresh tab at the selected engine's home page; the returned
    /// URL is what the new tab's view is told to load.
    pub fn open_tab(&mut self) -> (url: String)
        requires
            model_wf(old(self)@),
            old(self)@.next_id < u64::MAX,
        ensures
            model_wf(final(self)@),
            final(self)@ =~= spec_open_tab(old(self)@),
            url@ == spec_home_page(old(self)@.engine),
    {
        let url = home_page(self.engine);
        let tab = Tab { id: self.next_id, url: None, title: "New Tab".to_owned() };
        self.pages.push(Page::Web(tab));
        self.current = Some(self.pages.len() - 1);
        self.next_id = self.next_id + 1;
        proof {
            assert(self@.pages =~= spec_open_tab(old(self)@).pages);
        }
        url
    }

    /// Open a settings page at the end of the strip and show it.
    pub fn open_settings(&mut self)
        requires
            model_wf(old(self)@),
        ensures
            model_wf(final(self)@),
            final(self)@ =~= spec_open_settings(old(self)@),
    {
        self.pages.push(Page::Settings);
        self.current = Some(self.pages.len() - 1);
        proof {
            assert(self@.pages =~= spec_open_settings(old(self)@).pages);
        }
    }

    /// Close the page at a position; out of range, nothing happens.
    pub fn close_page(&mut self, index: usize)
        requires
            model_wf(old(self)@),
        ensures
            model_wf(final(self)@),
            final(self)@ =~= spec_close_page(old(self)@, index as int),
    {
        let ghost m = old(self)@;
        if index >= self.pages.len() {
            return ;
        }
        self.pages.remove(index);
        let ghost pages2 = m.pages.remove(index as int);
        proof {
            assert(self@.pages =~= pages2);
        }
        if self.pages.len() == 0 {
            self.current = None;
        } else {
            match self.current {
                Some(c) => {
                    if c > index {
                        self.current = Some(c - 1);
                    } else if c == index {
                        if index < self.pages.len() {
                            self.current = Some(index);
                        } else {
                            self.current = Some(self.pages.len() - 1);
                        }
                    }
                },
                None => {},
            }
        }
        let mut new_addr: Option<String> = None;
        match self.current {
            Some(c) => {
                match &self.pages[c] {
                    Page::Web(t) => {
                        match &t.url {
                            Some(u) => {
                                new_addr = Some(u.clone());
                            },
                            None => {},
                        }
                    },
                    Page::Settings => {},
                }
            },
            None => {},
        }
        match new_addr {
            Some(u2) => {
                self.address_bar = u2;
            },
            None => {},
        }
        proof {
            let m2 = spec_close_page(m, index as int);
            assert(self@.pages =~= m2.pages);
            assert(self@.current == m2.current);
            assert(self@.address_bar =~= m2.address_bar);
            assert(self@ =~= m2);
            assert forall|j: int|
                #![trigger m2.pages[j]]
                0 <= j < m2.pages.len() && m2.pages[j] is Web implies page_tab(m2.pages[j]).id
                < m2.next_id by {
                if j < index {
                    assert(m2.pages[j] == m.pages[j]);
                } else {
                    assert(m2.pages[j] == m.pages[j + 1]);
                }
            }
            assert forall|j: int, k: int|
                #![trigger m2.pages[j], m2.pages[k]]
                0 <= j < k < m2.pages.len() && m2.pages[j] is Web
                && m2.pages[k] is Web implies page_tab(m2.pages[j]).id != page_tab(
                m2.pages[k],
            ).id by {
                let j0 = if j < index {
                    j
                } else {
                    j + 1
                };
                let k0 = if k < index {
                    k
                } else {
                    k + 1
                };
                assert(m2.pages[j] == m.pages[j0]);
                assert(m2.pages[k] == m.pages[k0]);
            }
        }
    }

    /// Make the page at a position current; out of range, nothing happens.
    pub fn switch_to(&mut self, index: usize)
        requires
            model_wf(old(self)@),
        ensures
            model_wf(final(self)@),
            final(self)@ =~= spec_switch_to(old(self)@, index as int),
    {
        if index >= self.pages.len() {
            return ;
        }
        self.current = Some(index);
        let mut new_addr: Option<String> = None;
        match &self.pages[index] {
            Page::Web(t) => {
                match &t.url {
                    Some(u) => {
                        new_addr = Some(u.clone());
                    },
                    None => {},
                }
            },
            Page::Settings => {},
        }
        match new_addr {
            Some(u2) => {
                self.address_bar = u2;
            },
            None => {},
        }
        proof {
            assert(self@ =~= spec_switch_to(old(self)@, index as int));
        }
    }

    /// Record the URL the engine reported for the tab with this id; the
    /// address bar changes only when that tab is the current page.
    pub fn on_uri_changed(&mut self, id: u64, uri: String)
        requires
            model_wf(old(self)@),
        ensures
            model_wf(final(self)@),
            final(self)@ =~= spec_on_uri_changed(old(self)@, id as int, uri@),
    {
        let ghost m = old(self)@;
        let n = self.pages.len();
        let mut j: usize = 0;
        while j < n
            invariant
                j <= n,
                n == self.pages.len(),
                *self == *old(self),
                m == old(self)@,
                model_wf(m),
                forall|k: int| 0 <= k < j ==> !tab_at(m.pages, k, id as int),
            decreases n - j,
        {
            let hit = match &self.pages[j] {
                Page::Web(t) => t.id == id,
                Page::Settings => false,
            };
            proof {
                assert(m.pages[j as int] == self.pages@[j as int]@);
            }
            if hit {
                proof {
                    assert(tab_at(m.pages, j as int, id as int));
                }
                let is_cur = match self.current {
                    Some(c) => c == j,
                    None => false,
                };
                let p = self.pages.remove(j);
                match p {
                    Page::Web(t) => {
                        if is_cur {
                            self.address_bar = uri.clone();
                        }
                        let t2 = Tab { id: t.id, url: Some(uri), title: t.title };
                        self.pages.insert(j, Page::Web(t2));
                    },
                    Page::Settings => {
                        self.pages.insert(j, Page::Settings);
                    },
                }
                proof {
                    lemma_unique_tab_at(m, j as int, id as int);
                    let m2 = spec_on_uri_changed(m, id as int, uri@);
                    assert(self@.pages =~= m2.pages);
                    assert(self@ =~= m2);
                    lemma_wf_update_tab(
                        m,
                        j as int,
                        TabModel { url: Some(uri@), ..page_tab(m.pages[j as int]) },
                    );
                }
                return ;
            }
            j = j + 1;
        }
        proof {
            assert(forall|k: int| 0 <= k < m.pages.len() ==> !tab_at(m.pages, k, id as int));
            assert(!exists|k: int| tab_at(m.pages, k, id as int)) by {
                if exists|k: int| tab_at(m.pages, k, id as int) {
                    let k = choose|k: int| tab_at(m.pages, k, id as int);
                    assert(!tab_at(m.pages, k, id as int));
                }
            }
        }
    }

    /// Record the title the engine reported for the tab with this id; the
    /// address bar never changes.
    pub fn on_title_changed(&mut self, id: u64, title: String)
        requires
            model_wf(old(self)@),
        ensures
            model_wf(final(self)@),
            final(self)@ =~= spec_on_title_changed(old(self)@, id as int, title@),
            final(self)@.address_bar == old(self)@.address_bar,
    {
        let ghost m = old(self)@;
        let n = self.pages.len();
        let mut j: usize = 0;
        while j < n
            invariant
                j <= n,
                n == self.pages.len(),
                *self == *old(self),
                m == old(self)@,
                model_wf(m),
                forall|k: int| 0 <= k < j ==> !tab_at(m.pages, k, id as int),
            decreases n - j,
        {
            let hit = match &self.pages[j] {
                Page::Web(t) => t.id == id,
                Page::Settings => false,
            };
            proof {
                assert(m.pages[j as int] == self.pages@[j as int]@);
            }
            if hit {
                proof {
                    assert(tab_at(m.pages, j as int, id as int));
                }
                let p = self.pages.remove(j);
                match p {
                    Page::Web(t) => {
                        let t2 = Tab { id: t.id, url: t.url, title };
                        self.pages.insert(j, Page::Web(t2));
                    },
                    Page::Settings => {
                        self.pages.insert(j, Page::Settings);
                    },
                }
                proof {
                    lemma_unique_tab_at(m, j as int, id as int);
                    let m2 = spec_on_title_changed(m, id as int, title@);
                    assert(self@.pages =~= m2.pages);
                    assert(self@ =~= m2);
                    lemma_wf_update_tab(
                        m,
                        j as int,
                        TabModel { title: title@, ..page_tab(m.pages[j as int]) },
                    );
                }
                return ;
            }
            j = j + 1;
        }
        proof {
            assert(!exists|k: int| tab_at(m.pages, k, id as int)) by {
                if exists|k: int| tab_at(m.pages, k, id as int) {
                    let k = choose|k: int| tab_at(m.pages, k, id as int);
                    assert(!tab_at(m.pages, k, id as int));
                }
            }
        }
    }

    /// Select the search engine used for queries and new tabs; an
    /// out-of-range index does nothing.
    pub fn select_engine(&mut self, index: usize)
        requires
            model_wf(old(self)@),
        ensures
            model_wf(final(self)@),
            final(self)@ =~= spec_select_engine(old(self)@, index as int),
    {
        if index < ENGINE_COUNT {
            self.engine = index;
        }
    }

    /// The URL to load for address-bar input, when the current page is a
    /// browsing tab; nothing otherwise, and no navigation happens.
    pub fn submit(&self, text: &str) -> (r: Option<String>)
        requires
            model_wf(self@),
        ensures
            match r {
                Some(u) => spec_current_tab_id(self@) is Some && u@ == spec_resolve(
                    text@,
                    self@.engine,
                ),
                None => spec_current_tab_id(self@) is None,
            },
    {
        match self.current_tab_id() {
            Some(_) => Some(resolve(text, self.engine)),
            None => None,
        }
    }

    /// The id of the current page's tab; nothing when the strip is empty
    /// or the current page is the settings page.
    pub fn current_tab_id(&self) -> (r: Option<u64>)
        requires
            model_wf(self@),
        ensures
            match r {
                Some(id) => spec_current_tab_id(self@) == Some(id as int),
                None => spec_current_tab_id(self@) is None,
            },
    {
        match self.current {
            Some(c) => {
                if c < self.pages.len() {
                    match &self.pages[c] {
                        Page::Web(t) => Some(t.id),
                        Page::Settings => None,
                    }
                } else {
                    None
                }
            },
            None => None,
        }
    }

    /// How many pages are open.
    pub fn page_count(&self) -> (n: usize)
        ensures
            n == self@.pages.len(),
    {
        self.pages.len()
    }

    /// The position of the current page, when any page is open.
    pub fn current_index(&self) -> (r: Option<usize>)
        ensures
            match r {
                Some(i) => self@.current == Some(i as int),
                None => self@.current is None,
            },
    {
        self.current
    }

    /// The text the address bar shows.
    pub fn address_bar_text(&self) -> (r: String)
        ensures
            r@ == self@.address_bar,
    {
        self.address_bar.clone()
    }

    /// The selected engine's registry index.
    pub fn engine_index(&self) -> (r: usize)
        ensures
            r == self@.engine,
    {
        self.engine
    }

    /// The last-known URL of the tab at a position, when that page is a
    /// browsing tab that has reported one.
    pub fn tab_url(&self, index: usize) -> (r: Option<String>)
        ensures
            match r {
                Some(u) => index < self@.pages.len() && self@.pages[index as int] is Web
                    && page_tab(self@.pages[index as int]).url == Some(u@),
                None => !(index < self@.pages.len() && self@.pages[index as int] is Web
                    && page_tab(self@.pages[index as int]).url is Some),
            },
    {
        if index >= self.pages.len() {
            return None;
        }
        match &self.pages[index] {
            Page::Web(t) => {
                match &t.url {
                    Some(u) => Some(u.clone()),
                    None => None,
                }
            },
            Page::Settings => None,
        }
    }

    /// The label title of the tab at a position, when that page is a
    /// browsing tab.
    pub fn tab_title(&self, index: usize) -> (r: Option<String>)
        ensures
            match r {
                Some(t) => index < self@.pages.len() && self@.pages[index as int] is Web
                    && page_tab(self@.pages[index as int]).title == t@,
                None => !(index < self@.pages.len() && self@.pages[index as int] is Web),
            },
    {
        if index >= self.pages.len() {
            return None;
        }
        match &self.pages[index] {
            Page::Web(t) => Some(t.title.clone()),
            Page::Settings => None,
        }
    }
}

/// Closing the current page while others remain leaves one page fewer, a
/// current page among the remaining ones (the page that followed the
/// closed one, or the one before it when the last page was closed), and an
/// address bar showing that page's last-known URL whenever it is a
/// browsing tab that has reported one.
pub proof fn lemma_close_current_page(m: BrowserModel, c: int)
    requires
        model_wf(m),
        m.current == Some(c),
        m.pages.len() > 1,
    ensures
        ({
            let m2 = spec_close_page(m, c);
            let c2 = m2.current.unwrap();
            &&& m2.pages.len() == m.pages.len() - 1
            &&& m2.current is Some
            &&& 0 <= c2 < m2.pages.len()
            &&& m2.pages[c2] == if c < m.pages.len() - 1 {
                m.pages[c + 1]
            } else {
                m.pages[c - 1]
            }
            &&& (m2.pages[c2] is Web && page_tab(m2.pages[c2]).url is Some ==> m2.address_bar
                == page_tab(m2.pages[c2]).url.unwrap())
        }),
{
}

/// A URL report for a tab that is not current leaves the address bar
/// alone; switching to that tab afterwards makes it current and shows the
/// reported URL.
pub proof fn lemma_background_uri_then_switch(m: BrowserModel, j: int, id: int, uri: Seq<char>)
    requires
        model_wf(m),
        tab_at(m.pages, j, id),
        m.current != Some(j),
    ensures
        ({
            let m1 = spec_on_uri_changed(m, id, uri);
            &&& m1.address_bar == m.address_bar
            &&& spec_switch_to(m1, j).current == Some(j)
            &&& spec_switch_to(m1, j).address_bar == uri
        }),
{
    lemma_unique_tab_at(m, j, id);
}

/// Under well-formedness, the position of a tab id is unique, so it is the
/// position any witness picks.
proof fn lemma_unique_tab_at(m: BrowserModel, j: int, id: int)
    requires
        model_wf(m),
        tab_at(m.pages, j, id),
    ensures
        (choose|k: int| tab_at(m.pages, k, id)) == j,
        forall|k: int| tab_at(m.pages, k, id) ==> k == j,
{
    assert forall|k: int| tab_at(m.pages, k, id) implies k == j by {
        if k < j {
            assert(page_tab(m.pages[k]).id != page_tab(m.pages[j]).id);
        } else if k > j {
            assert(page_tab(m.pages[j]).id != page_tab(m.pages[k]).id);
        }
    }
    assert(tab_at(m.pages, choose|k: int| tab_at(m.pages, k, id), id));
}

/// Replacing the tab at one position with a tab of the same id keeps the
/// state well formed.
proof fn lemma_wf_update_tab(m: BrowserModel, j: int, t2: TabModel)
    requires
        model_wf(m),
        0 <= j < m.pages.len(),
        m.pages[j] is Web,
        t2.id == page_tab(m.pages[j]).id,
    ensures
        forall|a: int|
            #![trigger m.pages.update(j, PageModel::Web(t2))[a]]
            0 <= a < m.pages.len() && m.pages.update(j, PageModel::Web(t2))[a] is Web ==> page_tab(
                m.pages.update(j, PageModel::Web(t2))[a],
            ).id < m.next_id,
        forall|a: int, b: int|
            #![trigger m.pages.update(j, PageModel::Web(t2))[a], m.pages.update(j, PageModel::Web(t2))[b]]
            0 <= a < b < m.pages.len() && m.pages.update(j, PageModel::Web(t2))[a] is Web
                && m.pages.update(j, PageModel::Web(t2))[b] is Web ==> page_tab(
                m.pages.update(j, PageModel::Web(t2))[a],
            ).id != page_tab(m.pages.update(j, PageModel::Web(t2))[b]).id,
{
    let pages2 = m.pages.update(j, PageModel::Web(t2));
    assert forall|a: int, b: int|
        #![trigger pages2[a], pages2[b]]
        0 <= a < b < pages2.len() && pages2[a] is Web && pages2[b] is Web implies page_tab(
        pages2[a],
    ).id != page_tab(pages2[b]).id by {
        assert(a == j || pages2[a] == m.pages[a]);
        assert(b == j || pages2[b] == m.pages[b]);
    }
}

} // verus!
