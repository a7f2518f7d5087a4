//! A builder for Discord webhook message embeds: a message body plus one
//! embed entry with title, description, fields, footer, author and images.
//!
//! The builder here is the bare data structure; serializing it for the
//! wire is left to the callers around the library.

use vstd::prelude::*;

verus! {

/// One name/value field of an embed.
#[derive(Debug, Clone)]
pub struct EmbedField {
    pub name: String,
    pub value: String,
    pub inline: bool,
}

/// The footer line of an embed.
#[derive(Debug, Clone)]
pub struct EmbedFooter {
    pub text: String,
    pub icon_url: Option<String>,
}

/// The author line of an embed.
#[derive(Debug, Clone)]
pub struct EmbedAuthor {
    pub name: String,
    pub url: Option<String>,
    pub icon_url: Option<String>,
}

/// The thumbnail of an embed.
#[derive(Debug, Clone)]
pub struct Thumbnail {
    pub url: String,
}

/// One embed entry of a message.
#[derive(Debug, Clone)]
pub struct EmbedEntry {
    pub title: Option<String>,
    pub description: Option<String>,
    pub url: Option<String>,
    pub color: Option<u32>,
    pub fields: Vec<EmbedField>,
    pub footer: Option<EmbedFooter>,
    pub author: Option<EmbedAuthor>,
    pub thumbnail: Option<Thumbnail>,
    pub image: Option<String>,
}

/// A webhook message: sender overrides, plain content, and its embeds.
#[derive(Debug, Clone)]
pub struct Embed {
    pub username: Option<String>,
    pub content: Option<String>,
    pub avatar_url: Option<String>,
    pub embeds: Vec<EmbedEntry>,
}

/// A freshly created embed entry: every field at its default.
pub open spec fn is_blank_entry(e: EmbedEntry) -> bool {
    &&& e.title is None &&& e.description is None &&& e.url is None &&& e.color is None &&& e.fields@ == Seq::<EmbedField>::empty() &&& e.footer is None &&& e.author is None &&& e.thumbnail is None &&& e.image is None
}

/// `a` agrees with `b` on every entry field except `title`.
pub open spec fn keeps_all_but_title(a: EmbedEntry, b: EmbedEntry) -> bool {
    &&& a.description == b.description &&& a.url == b.url &&& a.color == b.color &&& a.fields@ == b.fields@ &&& a.footer == b.footer &&& a.author == b.author &&& a.thumbnail == b.thumbnail &&& a.image == b.image
}

/// Every entry field of `e` except `title` still has its default value.
pub open spec fn blank_but_title(e: EmbedEntry) -> bool {
    &&& e.description is None &&& e.url is None &&& e.color is None &&& e.fields@ == Seq::<EmbedField>::empty() &&& e.footer is None &&& e.author is None &&& e.thumbnail is None &&& e.image is None
}

/// `a` agrees with `b` on every entry field except `description`.
pub open spec fn keeps_all_but_description(a: EmbedEntry, b: EmbedEntry) -> bool {
    &&& a.title == b.title &&& a.url == b.url &&& a.color == b.color &&& a.fields@ == b.fields@ &&& a.footer == b.footer &&& a.author == b.author &&& a.thumbnail == b.thumbnail &&& a.image == b.image
}

/// Every entry field of `e` except `description` still has its default value.
pub open spec fn blank_but_description(e: EmbedEntry) -> bool {
    &&& e.title is None &&& e.url is None &&& e.color is None &&& e.fields@ == Seq::<EmbedField>::empty() &&& e.footer is None &&& e.author is None &&& e.thumbnail is None &&& e.image is None
}

/// `a` agrees with `b` on every entry field except `url`.
pub open spec fn keeps_all_but_url(a: EmbedEntry, b: EmbedEntry) -> bool {
    &&& a.title == b.title &&& a.description == b.description &&& a.color == b.color &&& a.fields@ == b.fields@ &&& a.footer == b.footer &&& a.author == b.author &&& a.thumbnail == b.thumbnail &&& a.image == b.image
}

/// Every entry field of `e` except `url` still has its default value.
pub open spec fn blank_but_url(e: EmbedEntry) -> bool {
    &&& e.title is None &&& e.description is None &&& e.color is None &&& e.fields@ == Seq::<EmbedField>::empty() &&& e.footer is None &&& e.author is None &&& e.thumbnail is None &&& e.image is None
}

/// `a` agrees with `b` on every entry field except `color`.
pub open spec fn keeps_all_but_color(a: EmbedEntry, b: EmbedEntry) -> bool {
    &&& a.title == b.title &&& a.description == b.description &&& a.url == b.url &&& a.fields@ == b.fields@ &&& a.footer == b.footer &&& a.author == b.author &&& a.thumbnail == b.thumbnail &&& a.image == b.image
}

/// Every entry field of `e` except `color` still has its default value.
pub open spec fn blank_but_color(e: EmbedEntry) -> bool {
    &&& e.title is None &&& e.description is None &&& e.url is None &&& e.fields@ == Seq::<EmbedField>::empty() &&& e.footer is None &&& e.author is None &&& e.thumbnail is None &&& e.image is None
}

/// `a` agrees with `b` on every entry field except `fields`.
pub open spec fn keeps_all_but_fields(a: EmbedEntry, b: EmbedEntry) -> bool {
    &&& a.title == b.title &&& a.description == b.description &&& a.url == b.url &&& a.color == b.color &&& a.footer == b.footer &&& a.author == b.author &&& a.thumbnail == b.thumbnail &&& a.image == b.image
}

/// Every entry field of `e` except `fields` still has its default value.
pub open spec fn blank_but_fields(e: EmbedEntry) -> bool {
    &&& e.title is None &&& e.description is None &&& e.url is None &&& e.color is None &&& e.footer is None &&& e.author is None &&& e.thumbnail is None &&& e.image is None
}

/// `a` agrees with `b` on every entry field except `footer`.
pub open spec fn keeps_all_but_footer(a: EmbedEntry, b: EmbedEntry) -> bool {
    &&& a.title == b.title &&& a.description == b.description &&& a.url == b.url &&& a.color == b.color &&& a.fields@ == b.fields@ &&& a.author == b.author &&& a.thumbnail == b.thumbnail &&& a.image == b.image
}

/// Every entry field of `e` except `footer` still has its default value.
pub open spec fn blank_but_footer(e: EmbedEntry) -> bool {
    &&& e.title is None &&& e.description is None &&& e.url is None &&& e.color is None &&& e.fields@ == Seq::<EmbedField>::empty() &&& e.author is None &&& e.thumbnail is None &&& e.image is None
}

/// `a` agrees with `b` on every entry field except `author`.
pub open spec fn keeps_all_but_author(a: EmbedEntry, b: EmbedEntry) -> bool {
    &&& a.title == b.title &&& a.description == b.description &&& a.url == b.url &&& a.color == b.color &&& a.fields@ == b.fields@ &&& a.footer == b.footer &&& a.thumbnail == b.thumbnail &&& a.image == b.image
}

/// Every entry field of `e` except `author` still has its default value.
pub open spec fn blank_but_author(e: EmbedEntry) -> bool {
    &&& e.title is None &&& e.description is None &&& e.url is None &&& e.color is None &&& e.fields@ == Seq::<EmbedField>::empty() &&& e.footer is None &&& e.thumbnail is None &&& e.image is None
}

/// `a` agrees with `b` on every entry field except `thumbnail`.
pub open spec fn keeps_all_but_thumbnail(a: EmbedEntry, b: EmbedEntry) -> bool {
    &&& a.title == b.title &&& a.description == b.description &&& a.url == b.url &&& a.color == b.color &&& a.fields@ == b.fields@ &&& a.footer == b.footer &&& a.author == b.author &&& a.image == b.image
}

/// Every entry field of `e` except `thumbnail` still has its default value.
pub open spec fn blank_but_thumbnail(e: EmbedEntry) -> bool {
    &&& e.title is None &&& e.description is None &&& e.url is None &&& e.color is None &&& e.fields@ == Seq::<EmbedField>::empty() &&& e.footer is None &&& e.author is None &&& e.image is None
}

/// `a` agrees with `b` on every entry field except `image`.
pub open spec fn keeps_all_but_image(a: EmbedEntry, b: EmbedEntry) -> bool {
    &&& a.title == b.title &&& a.description == b.description &&& a.url == b.url &&& a.color == b.color &&& a.fields@ == b.fields@ &&& a.footer == b.footer &&& a.author == b.author &&& a.thumbnail == b.thumbnail
}

/// Every entry field of `e` except `image` still has its default value.
pub open spec fn blank_but_image(e: EmbedEntry) -> bool {
    &&& e.title is None &&& e.description is None &&& e.url is None &&& e.color is None &&& e.fields@ == Seq::<EmbedField>::empty() &&& e.footer is None &&& e.author is None &&& e.thumbnail is None
}

impl Embed {
    /// An empty message: no overrides, no content, no embed entries.
    pub fn new() -> (r: Self)
        ensures
            r.username is None,
            r.content is None,
            r.avatar_url is None,
            r.embeds@ == Seq::<EmbedEntry>::empty(),
    {
        Self { content: None, username: None, avatar_url: None, embeds: Vec::new() }
    }

    /// Make sure entry 0 exists: the builder methods below all write into
    /// the first embed entry.
    fn ensure_embed_entry(&mut self)
        ensures
            final(self).username == old(self).username,
            final(self).content == old(self).content,
            final(self).avatar_url == old(self).avatar_url,
            old(self).embeds@.len() == 0 ==> final(self).embeds@.len() == 1 && is_blank_entry(
                final(self).embeds@[0],
            ),
            old(self).embeds@.len() > 0 ==> final(self).embeds@ == old(self).embeds@,
    {
        if self.embeds.len() == 0 {
            self.embeds.push(
                EmbedEntry {
                    title: None,
                    description: None,
                    url: None,
                    color: None,
                    fields: Vec::new(),
                    footer: None,
                    author: None,
                    thumbnail: None,
                    image: None,
                },
            );
        }
    }

    /// Override the webhook's user name.
    pub fn username(self, username: String) -> (r: Self)
        ensures
            r.username == Some(username),
            r.content == self.content,
            r.avatar_url == self.avatar_url,
            r.embeds == self.embeds,
    {
        let mut s = self;
        s.username = Some(username);
        s
    }

    /// Set the plain message content.
    pub fn content(self, content: String) -> (r: Self)
        ensures
            r.content == Some(content),
            r.username == self.username,
            r.avatar_url == self.avatar_url,
            r.embeds == self.embeds,
    {
        let mut s = self;
        s.content = Some(content);
        s
    }

    /// Override the webhook's avatar.
    pub fn avatar_url(self, avatar_url: String) -> (r: Self)
        ensures
            r.avatar_url == Some(avatar_url),
            r.username == self.username,
            r.content == self.content,
            r.embeds == self.embeds,
    {
        let mut s = self;
        s.avatar_url = Some(avatar_url);
        s
    }

    /// Append one name/value field to the embed.
    pub fn field(self, name: String, value: String, inline: bool) -> (r: Self)
        ensures
            r.username == self.username,
            r.content == self.content,
            r.avatar_url == self.avatar_url,
            r.embeds@.len() == if self.embeds@.len() == 0 { 1int } else {
                self.embeds@.len() as int
            },
            forall|k: int| 1 <= k < r.embeds@.len() ==> r.embeds@[k] == self.embeds@[k],
            self.embeds@.len() > 0 ==> keeps_all_but_fields(r.embeds@[0], self.embeds@[0])
                && r.embeds@[0].fields@ == self.embeds@[0].fields@.push(
                EmbedField { name, value, inline },
            ),
            self.embeds@.len() == 0 ==> blank_but_fields(r.embeds@[0]) && r.embeds@[0].fields@
                == seq![EmbedField { name, value, inline }],
    {
        let ghost nm = name@;
        let mut s = self;
        s.ensure_embed_entry();
        let ghost mid = s.embeds@;
        let mut entry = s.embeds.remove(0);
        entry.fields.push(EmbedField { name, value, inline });
        s.embeds.insert(0, entry);
        proof {
            assert(s.embeds@ =~= mid.update(0, entry));
            if self.embeds@.len() == 0 {
                assert(s.embeds@[0].fields@ =~= seq![
                    EmbedField { name: s.embeds@[0].fields@[0].name, value: s.embeds@[0].fields@[0].value, inline: s.embeds@[0].fields@[0].inline },
                ]);
            }
        }
        s
    }

    /// Set the embed's title.
    pub fn title(self, title: String) -> (r: Self)
        ensures
            r.username == self.username,
            r.content == self.content,
            r.avatar_url == self.avatar_url,
            r.embeds@.len() == if self.embeds@.len() == 0 { 1int } else {
                self.embeds@.len() as int
            },
            forall|k: int| 1 <= k < r.embeds@.len() ==> r.embeds@[k] == self.embeds@[k],
            self.embeds@.len() > 0 ==> keeps_all_but_title(r.embeds@[0], self.embeds@[0]),
            self.embeds@.len() == 0 ==> blank_but_title(r.embeds@[0]),
            r.embeds@[0].title == Some(title),
    {
        let mut s = self;
        s.ensure_embed_entry();
        let ghost mid = s.embeds@;
        let mut entry = s.embeds.remove(0);
        entry.title = Some(title);
        s.embeds.insert(0, entry);
        proof {
            assert(s.embeds@ =~= mid.update(0, entry));
        }
        s
    }

    /// Set the embed's description.
    pub fn description(self, description: String) -> (r: Self)
        ensures
            r.username == self.username,
            r.content == self.content,
            r.avatar_url == self.avatar_url,
            r.embeds@.len() == if self.embeds@.len() == 0 { 1int } else {
                self.embeds@.len() as int
            },
            forall|k: int| 1 <= k < r.embeds@.len() ==> r.embeds@[k] == self.embeds@[k],
            self.embeds@.len() > 0 ==> keeps_all_but_description(r.embeds@[0], self.embeds@[0]),
            self.embeds@.len() == 0 ==> blank_but_description(r.embeds@[0]),
            r.embeds@[0].description == Some(description),
    {
        let mut s = self;
        s.ensure_embed_entry();
        let ghost mid = s.embeds@;
        let mut entry = s.embeds.remove(0);
        entry.description = Some(description);
        s.embeds.insert(0, entry);
        proof {
            assert(s.embeds@ =~= mid.update(0, entry));
        }
        s
    }

    /// Set the embed's link.
    pub fn url(self, url: String) -> (r: Self)
        ensures
            r.username == self.username,
            r.content == self.content,
            r.avatar_url == self.avatar_url,
            r.embeds@.len() == if self.embeds@.len() == 0 { 1int } else {
                self.embeds@.len() as int
            },
            forall|k: int| 1 <= k < r.embeds@.len() ==> r.embeds@[k] == self.embeds@[k],
            self.embeds@.len() > 0 ==> keeps_all_but_url(r.embeds@[0], self.embeds@[0]),
            self.embeds@.len() == 0 ==> blank_but_url(r.embeds@[0]),
            r.embeds@[0].url == Some(url),
    {
        let mut s = self;
        s.ensure_embed_entry();
        let ghost mid = s.embeds@;
        let mut entry = s.embeds.remove(0);
        entry.url = Some(url);
        s.embeds.insert(0, entry);
        proof {
            assert(s.embeds@ =~= mid.update(0, entry));
        }
        s
    }

    /// Set the embed's accent color.
    pub fn color(self, color: u32) -> (r: Self)
        ensures
            r.username == self.username,
            r.content == self.content,
            r.avatar_url == self.avatar_url,
            r.embeds@.len() == if self.embeds@.len() == 0 { 1int } else {
                self.embeds@.len() as int
            },
            forall|k: int| 1 <= k < r.embeds@.len() ==> r.embeds@[k] == self.embeds@[k],
            self.embeds@.len() > 0 ==> keeps_all_but_color(r.embeds@[0], self.embeds@[0]),
            self.embeds@.len() == 0 ==> blank_but_color(r.embeds@[0]),
            r.embeds@[0].color == Some(color),
    {
        let mut s = self;
        s.ensure_embed_entry();
        let ghost mid = s.embeds@;
        let mut entry = s.embeds.remove(0);
        entry.color = Some(color);
        s.embeds.insert(0, entry);
        proof {
            assert(s.embeds@ =~= mid.update(0, entry));
        }
        s
    }

    /// Set the embed's footer text.
    pub fn footer(self, text: String) -> (r: Self)
        ensures
            r.username == self.username,
            r.content == self.content,
            r.avatar_url == self.avatar_url,
            r.embeds@.len() == if self.embeds@.len() == 0 { 1int } else {
                self.embeds@.len() as int
            },
            forall|k: int| 1 <= k < r.embeds@.len() ==> r.embeds@[k] == self.embeds@[k],
            self.embeds@.len() > 0 ==> keeps_all_but_footer(r.embeds@[0], self.embeds@[0]),
            self.embeds@.len() == 0 ==> blank_but_footer(r.embeds@[0]),
            r.embeds@[0].footer == Some(EmbedFooter { text, icon_url: None }),
    {
        let mut s = self;
        s.ensure_embed_entry();
        let ghost mid = s.embeds@;
        let mut entry = s.embeds.remove(0);
        entry.footer = Some(EmbedFooter { text, icon_url: None });
        s.embeds.insert(0, entry);
        proof {
            assert(s.embeds@ =~= mid.update(0, entry));
        }
        s
    }

    /// Set the embed's footer text and icon.
    pub fn footer_with_icon(self, text: String, icon_url: String) -> (r: Self)
        ensures
            r.username == self.username,
            r.content == self.content,
            r.avatar_url == self.avatar_url,
            r.embeds@.len() == if self.embeds@.len() == 0 { 1int } else {
                self.embeds@.len() as int
            },
            forall|k: int| 1 <= k < r.embeds@.len() ==> r.embeds@[k] == self.embeds@[k],
            self.embeds@.len() > 0 ==> keeps_all_but_footer(r.embeds@[0], self.embeds@[0]),
            self.embeds@.len() == 0 ==> blank_but_footer(r.embeds@[0]),
            r.embeds@[0].footer == Some(EmbedFooter { text, icon_url: Some(icon_url) }),
    {
        let mut s = self;
        s.ensure_embed_entry();
        let ghost mid = s.embeds@;
        let mut entry = s.embeds.remove(0);
        entry.footer = Some(EmbedFooter { text, icon_url: Some(icon_url) });
        s.embeds.insert(0, entry);
        proof {
            assert(s.embeds@ =~= mid.update(0, entry));
        }
        s
    }

    /// Set the embed's author name.
    pub fn author(self, name: String) -> (r: Self)
        ensures
            r.username == self.username,
            r.content == self.content,
            r.avatar_url == self.avatar_url,
            r.embeds@.len() == if self.embeds@.len() == 0 { 1int } else {
                self.embeds@.len() as int
            },
            forall|k: int| 1 <= k < r.embeds@.len() ==> r.embeds@[k] == self.embeds@[k],
            self.embeds@.len() > 0 ==> keeps_all_but_author(r.embeds@[0], self.embeds@[0]),
            self.embeds@.len() == 0 ==> blank_but_author(r.embeds@[0]),
            r.embeds@[0].author == Some(EmbedAuthor { name, url: None, icon_url: None }),
    {
        let mut s = self;
        s.ensure_embed_entry();
        let ghost mid = s.embeds@;
        let mut entry = s.embeds.remove(0);
        entry.author = Some(EmbedAuthor { name, url: None, icon_url: None });
        s.embeds.insert(0, entry);
        proof {
            assert(s.embeds@ =~= mid.update(0, entry));
        }
        s
    }

    /// Set the embed's author name and link.
    pub fn author_with_url(self, name: String, url: String) -> (r: Self)
        ensures
            r.username == self.username,
            r.content == self.content,
            r.avatar_url == self.avatar_url,
            r.embeds@.len() == if self.embeds@.len() == 0 { 1int } else {
                self.embeds@.len() as int
            },
            forall|k: int| 1 <= k < r.embeds@.len() ==> r.embeds@[k] == self.embeds@[k],
            self.embeds@.len() > 0 ==> keeps_all_but_author(r.embeds@[0], self.embeds@[0]),
            self.embeds@.len() == 0 ==> blank_but_author(r.embeds@[0]),
            r.embeds@[0].author == Some(EmbedAuthor { name, url: Some(url), icon_url: None }),
    {
        let mut s = self;
        s.ensure_embed_entry();
        let ghost mid = s.embeds@;
        let mut entry = s.embeds.remove(0);
        entry.author = Some(EmbedAuthor { name, url: Some(url), icon_url: None });
        s.embeds.insert(0, entry);
        proof {
            assert(s.embeds@ =~= mid.update(0, entry));
        }
        s
    }

    /// Set the embed's author name and icon.
    pub fn author_with_icon(self, name: String, icon_url: String) -> (r: Self)
        ensures
            r.username == self.username,
            r.content == self.content,
            r.avatar_url == self.avatar_url,
            r.embeds@.len() == if self.embeds@.len() == 0 { 1int } else {
                self.embeds@.len() as int
            },
            forall|k: int| 1 <= k < r.embeds@.len() ==> r.embeds@[k] == self.embeds@[k],
            self.embeds@.len() > 0 ==> keeps_all_but_author(r.embeds@[0], self.embeds@[0]),
            self.embeds@.len() == 0 ==> blank_but_author(r.embeds@[0]),
            r.embeds@[0].author == Some(EmbedAuthor { name, url: None, icon_url: Some(icon_url) }),
    {
        let mut s = self;
        s.ensure_embed_entry();
        let ghost mid = s.embeds@;
        let mut entry = s.embeds.remove(0);
        entry.author = Some(EmbedAuthor { name, url: None, icon_url: Some(icon_url) });
        s.embeds.insert(0, entry);
        proof {
            assert(s.embeds@ =~= mid.update(0, entry));
        }
        s
    }

    /// Set the embed's thumbnail image.
    pub fn thumbnail(self, url: String) -> (r: Self)
        ensures
            r.username == self.username,
            r.content == self.content,
            r.avatar_url == self.avatar_url,
            r.embeds@.len() == if self.embeds@.len() == 0 { 1int } else {
                self.embeds@.len() as int
            },
            forall|k: int| 1 <= k < r.embeds@.len() ==> r.embeds@[k] == self.embeds@[k],
            self.embeds@.len() > 0 ==> keeps_all_but_thumbnail(r.embeds@[0], self.embeds@[0]),
            self.embeds@.len() == 0 ==> blank_but_thumbnail(r.embeds@[0]),
            r.embeds@[0].thumbnail == Some(Thumbnail { url }),
    {
        let mut s = self;
        s.ensure_embed_entry();
        let ghost mid = s.embeds@;
        let mut entry = s.embeds.remove(0);
        entry.thumbnail = Some(Thumbnail { url });
        s.embeds.insert(0, entry);
        proof {
            assert(s.embeds@ =~= mid.update(0, entry));
        }
        s
    }

    /// Set the embed's main image.
    pub fn image(self, url: String) -> (r: Self)
        ensures
            r.username == self.username,
            r.content == self.content,
            r.avatar_url == self.avatar_url,
            r.embeds@.len() == if self.embeds@.len() == 0 { 1int } else {
                self.embeds@.len() as int
            },
            forall|k: int| 1 <= k < r.embeds@.len() ==> r.embeds@[k] == self.embeds@[k],
            self.embeds@.len() > 0 ==> keeps_all_but_image(r.embeds@[0], self.embeds@[0]),
            self.embeds@.len() == 0 ==> blank_but_image(r.embeds@[0]),
            r.embeds@[0].image == Some(url),
    {
        let mut s = self;
        s.ensure_embed_entry();
        let ghost mid = s.embeds@;
        let mut entry = s.embeds.remove(0);
        entry.image = Some(url);
        s.embeds.insert(0, entry);
        proof {
            assert(s.embeds@ =~= mid.update(0, entry));
        }
        s
    }
}

impl Default for Embed {
    fn default() -> (r: Self)
        ensures
            r.username is None,
            r.content is None,
            r.avatar_url is None,
            r.embeds@ == Seq::<EmbedEntry>::empty(),
    {
        Self::new()
    }
}

impl Embed {
    pub const RED: u32 = 0xFF0000;

    pub const GREEN: u32 = 0x00FF00;

    pub const BLUE: u32 = 0x0000FF;

    pub const YELLOW: u32 = 0xFFFF00;

    pub const PURPLE: u32 = 0x800080;

    pub const ORANGE: u32 = 0xFFA500;

    pub const PINK: u32 = 0xFFC0CB;
}

} // verus!
