//! OpenGraph metadata: a fold of `og:*` properties, in document order, into
//! scalar fields and grouped media objects.

use crate::string_map::StringMap;
use crate::text::{decimal_u32, has_prefix, opt_view, parse_u32, str_eq, strip_prefix};
use vstd::prelude::*;

verus! {

/// The most media objects that any one of the three collections holds.
pub const MAX_MEDIA_ITEMS: usize = 100;

/// A media object (image, video or audio).
#[derive(Clone, Debug)]
pub struct OpengraphMedia {
    /// URL of the media.
    pub url: String,
    /// Secure (HTTPS) URL of the media.
    pub secure_url: Option<String>,
    /// MIME type, such as `image/jpeg`.
    pub mime_type: Option<String>,
    /// Width in pixels.
    pub width: Option<u32>,
    /// Height in pixels.
    pub height: Option<u32>,
    /// Alternative text.
    pub alt: Option<String>,
    /// Sub-properties that have no field of their own.
    pub properties: StringMap,
}

/// What an [`OpengraphMedia`] holds.
pub struct MediaView {
    pub url: Seq<char>,
    pub secure_url: Option<Seq<char>>,
    pub mime_type: Option<Seq<char>>,
    pub width: Option<u32>,
    pub height: Option<u32>,
    pub alt: Option<Seq<char>>,
    pub properties: Map<Seq<char>, Seq<char>>,
}

impl View for OpengraphMedia {
    type V = MediaView;

    open spec fn view(&self) -> MediaView {
        MediaView {
            url: self.url@,
            secure_url: opt_view(self.secure_url),
            mime_type: opt_view(self.mime_type),
            width: self.width,
            height: self.height,
            alt: opt_view(self.alt),
            properties: self.properties@,
        }
    }
}

/// A media object that has a URL and nothing else.
pub open spec fn media_with_url(url: Seq<char>) -> MediaView {
    MediaView {
        url,
        secure_url: None,
        mime_type: None,
        width: None,
        height: None,
        alt: None,
        properties: Map::empty(),
    }
}

/// The part of `property` after the type tag and a colon; empty where the
/// property does not begin with them.
pub open spec fn media_suffix(tag: Seq<char>, property: Seq<char>) -> Seq<char> {
    if has_prefix(property, tag + seq![':']) {
        property.subrange((tag.len() + 1) as int, property.len() as int)
    } else {
        seq![]
    }
}

/// A media object after one sub-property has been applied to it.
pub open spec fn media_applied(m: MediaView, suffix: Seq<char>, content: Seq<char>) -> MediaView {
    if suffix == "secure_url"@ {
        MediaView { secure_url: Some(content), ..m }
    } else if suffix == "type"@ {
        MediaView { mime_type: Some(content), ..m }
    } else if suffix == "width"@ {
        MediaView { width: decimal_u32(content), ..m }
    } else if suffix == "height"@ {
        MediaView { height: decimal_u32(content), ..m }
    } else if suffix == "alt"@ {
        MediaView { alt: Some(content), ..m }
    } else if suffix.len() == 0 {
        m
    } else {
        MediaView { properties: m.properties.insert(suffix, content), ..m }
    }
}

/// Whether `property` starts a new media object of the type `tag`.
pub open spec fn starts_media(tag: Seq<char>, property: Seq<char>) -> bool {
    property == tag || property == tag + ":url"@
}

/// A media collection after one property of its type has been folded in.
pub open spec fn media_extended(
    tag: Seq<char>,
    items: Seq<MediaView>,
    property: Seq<char>,
    content: Seq<char>,
) -> Seq<MediaView> {
    if starts_media(tag, property) {
        if items.len() < MAX_MEDIA_ITEMS {
            items.push(media_with_url(content))
        } else {
            items
        }
    } else if items.len() == 0 {
        items
    } else {
        items.update(
            items.len() - 1,
            media_applied(items.last(), media_suffix(tag, property), content),
        )
    }
}

/// The views of a list of media objects.
pub open spec fn media_views(items: Seq<OpengraphMedia>) -> Seq<MediaView> {
    items.map_values(|m: OpengraphMedia| m@)
}

/// The views of a list of strings.
pub open spec fn string_views(items: Seq<String>) -> Seq<Seq<char>> {
    items.map_values(|s: String| s@)
}

impl OpengraphMedia {
    /// A media object with the given URL and nothing else.
    pub fn new(url: String) -> (r: Self)
        ensures
            r@ == media_with_url(url@),
    {
        OpengraphMedia {
            url,
            secure_url: None,
            mime_type: None,
            width: None,
            height: None,
            alt: None,
            properties: StringMap::new(),
        }
    }

    /// Applies one sub-property, named by what follows the type tag and its
    /// colon, to this media object.
    pub fn apply(&mut self, suffix: &str, content: String)
        ensures
            final(self)@ == media_applied(old(self)@, suffix@, content@),
    {
        if str_eq(suffix, "secure_url") {
            self.secure_url = Some(content);
        } else if str_eq(suffix, "type") {
            self.mime_type = Some(content);
        } else if str_eq(suffix, "width") {
            self.width = parse_u32(content.as_str());
        } else if str_eq(suffix, "height") {
            self.height = parse_u32(content.as_str());
        } else if str_eq(suffix, "alt") {
            self.alt = Some(content);
        } else if suffix.is_empty() {
        } else {
            self.properties.insert(suffix.to_owned(), content);
        }
    }
}

impl Default for OpengraphMedia {
    fn default() -> (r: Self)
        ensures
            r@ == media_with_url(Seq::<char>::empty()),
    {
        OpengraphMedia::new(String::new())
    }
}

/// OpenGraph metadata of a page.
#[derive(Clone, Debug)]
pub struct Opengraph {
    /// The type of object, such as `website` or `article`.
    pub og_type: Option<String>,
    /// The title of the object.
    pub title: Option<String>,
    /// A brief description.
    pub description: Option<String>,
    /// The canonical URL of the object.
    pub url: Option<String>,
    /// The name of the site.
    pub site_name: Option<String>,
    /// The locale of the content, such as `en_US`.
    pub locale: Option<String>,
    /// Other locales in which the page is available.
    pub locale_alternates: Vec<String>,
    /// Images, in the order in which each was begun.
    pub images: Vec<OpengraphMedia>,
    /// Videos, in the order in which each was begun.
    pub videos: Vec<OpengraphMedia>,
    /// Audio files, in the order in which each was begun.
    pub audios: Vec<OpengraphMedia>,
    /// Properties that have no field of their own.
    pub properties: StringMap,
}

/// What an [`Opengraph`] holds.
pub struct OpengraphView {
    pub og_type: Option<Seq<char>>,
    pub title: Option<Seq<char>>,
    pub description: Option<Seq<char>>,
    pub url: Option<Seq<char>>,
    pub site_name: Option<Seq<char>>,
    pub locale: Option<Seq<char>>,
    pub locale_alternates: Seq<Seq<char>>,
    pub images: Seq<MediaView>,
    pub videos: Seq<MediaView>,
    pub audios: Seq<MediaView>,
    pub properties: Map<Seq<char>, Seq<char>>,
}

impl View for Opengraph {
    type V = OpengraphView;

    open spec fn view(&self) -> OpengraphView {
        OpengraphView {
            og_type: opt_view(self.og_type),
            title: opt_view(self.title),
            description: opt_view(self.description),
            url: opt_view(self.url),
            site_name: opt_view(self.site_name),
            locale: opt_view(self.locale),
            locale_alternates: string_views(self.locale_alternates@),
            images: media_views(self.images@),
            videos: media_views(self.videos@),
            audios: media_views(self.audios@),
            properties: self.properties@,
        }
    }
}

/// The OpenGraph data of a page that states none.
pub open spec fn empty_opengraph() -> OpengraphView {
    OpengraphView {
        og_type: None,
        title: None,
        description: None,
        url: None,
        site_name: None,
        locale: None,
        locale_alternates: seq![],
        images: seq![],
        videos: seq![],
        audios: seq![],
        properties: Map::empty(),
    }
}

/// Whether a property name (without `og:`) has a field or a collection of its
/// own, so that it never reaches `properties`.
pub open spec fn is_recognized(property: Seq<char>) -> bool {
    ||| property == "type"@
    ||| property == "title"@
    ||| property == "description"@
    ||| property == "url"@
    ||| property == "site_name"@
    ||| property == "locale"@
    ||| property == "locale:alternate"@
    ||| has_prefix(property, "image"@)
    ||| has_prefix(property, "video"@)
    ||| has_prefix(property, "audio"@)
}

/// OpenGraph data after one property (named without `og:`) has been folded
/// in. The first rule that matches decides.
pub open spec fn extended(
    og: OpengraphView,
    property: Seq<char>,
    content: Seq<char>,
) -> OpengraphView {
    if property == "type"@ {
        OpengraphView { og_type: Some(content), ..og }
    } else if property == "title"@ {
        OpengraphView { title: Some(content), ..og }
    } else if property == "description"@ {
        OpengraphView { description: Some(content), ..og }
    } else if property == "url"@ {
        OpengraphView { url: Some(content), ..og }
    } else if property == "site_name"@ {
        OpengraphView { site_name: Some(content), ..og }
    } else if property == "locale"@ {
        OpengraphView { locale: Some(content), ..og }
    } else if property == "locale:alternate"@ {
        OpengraphView { locale_alternates: og.locale_alternates.push(content), ..og }
    } else if has_prefix(property, "image"@) {
        OpengraphView { images: media_extended("image"@, og.images, property, content), ..og }
    } else if has_prefix(property, "video"@) {
        OpengraphView { videos: media_extended("video"@, og.videos, property, content), ..og }
    } else if has_prefix(property, "audio"@) {
        OpengraphView { audios: media_extended("audio"@, og.audios, property, content), ..og }
    } else {
        OpengraphView { properties: og.properties.insert(property, content), ..og }
    }
}

/// Whether none of the three media collections holds more than
/// [`MAX_MEDIA_ITEMS`] objects.
pub open spec fn within_limits(og: OpengraphView) -> bool {
    &&& og.images.len() <= MAX_MEDIA_ITEMS
    &&& og.videos.len() <= MAX_MEDIA_ITEMS
    &&& og.audios.len() <= MAX_MEDIA_ITEMS
}

/// Whether no key of `properties` is a recognized property name.
pub open spec fn properties_unrecognized(og: OpengraphView) -> bool {
    forall|k: Seq<char>| og.properties.contains_key(k) ==> !is_recognized(k)
}

/// OpenGraph data after a list of properties has been folded in, first to
/// last.
pub open spec fn extended_all(
    og: OpengraphView,
    pairs: Seq<(Seq<char>, Seq<char>)>,
) -> OpengraphView
    decreases pairs.len(),
{
    if pairs.len() == 0 {
        og
    } else {
        extended(extended_all(og, pairs.drop_last()), pairs.last().0, pairs.last().1)
    }
}

/// Folding a property in never brings a media collection over its limit.
pub proof fn lemma_extend_within_limits(og: OpengraphView, property: Seq<char>, content: Seq<char>)
    requires
        within_limits(og),
    ensures
        within_limits(extended(og, property, content)),
{
}

/// Folding a property in never puts a recognized name among `properties`.
pub proof fn lemma_extend_properties_unrecognized(
    og: OpengraphView,
    property: Seq<char>,
    content: Seq<char>,
)
    requires
        properties_unrecognized(og),
    ensures
        properties_unrecognized(extended(og, property, content)),
{
}

/// Whatever properties are folded into empty data, each media collection
/// stays within its limit and `properties` holds no recognized name.
pub proof fn lemma_fold_invariants(pairs: Seq<(Seq<char>, Seq<char>)>)
    ensures
        within_limits(extended_all(empty_opengraph(), pairs)),
        properties_unrecognized(extended_all(empty_opengraph(), pairs)),
    decreases pairs.len(),
{
    if pairs.len() > 0 {
        lemma_fold_invariants(pairs.drop_last());
        let before = extended_all(empty_opengraph(), pairs.drop_last());
        lemma_extend_within_limits(before, pairs.last().0, pairs.last().1);
        lemma_extend_properties_unrecognized(before, pairs.last().0, pairs.last().1);
    }
}

/// A sub-property changes only the media object that was begun last; a
/// property that begins a media object leaves all earlier ones as they were.
pub proof fn lemma_media_extend_keeps_earlier(
    tag: Seq<char>,
    items: Seq<MediaView>,
    property: Seq<char>,
    content: Seq<char>,
    i: int,
)
    requires
        0 <= i < items.len() - 1,
    ensures
        media_extended(tag, items, property, content).len() >= items.len(),
        media_extended(tag, items, property, content)[i] == items[i],
{
}

/// Whether the data states nothing of substance: no type, title, description
/// or URL, and no image.
pub open spec fn is_blank(og: OpengraphView) -> bool {
    &&& og.og_type is None
    &&& og.title is None
    &&& og.description is None
    &&& og.url is None
    &&& og.images.len() == 0
}

impl Opengraph {
    /// OpenGraph data with nothing in it.
    pub fn new() -> (r: Self)
        ensures
            r@ == empty_opengraph(),
    {
        let r = Opengraph {
            og_type: None,
            title: None,
            description: None,
            url: None,
            site_name: None,
            locale: None,
            locale_alternates: Vec::new(),
            images: Vec::new(),
            videos: Vec::new(),
            audios: Vec::new(),
            properties: StringMap::new(),
        };
        assert(r@.locale_alternates =~= seq![]);
        assert(r@.images =~= seq![]);
        assert(r@.videos =~= seq![]);
        assert(r@.audios =~= seq![]);
        r
    }

    /// Folds one property into the data. `property` is the name without its
    /// `og:` prefix; `content` has been trimmed by the caller.
    pub fn extend(&mut self, property: &str, content: String)
        ensures
            final(self)@ == extended(old(self)@, property@, content@),
    {
        if str_eq(property, "type") {
            self.og_type = Some(content);
        } else if str_eq(property, "title") {
            self.title = Some(content);
        } else if str_eq(property, "description") {
            self.description = Some(content);
        } else if str_eq(property, "url") {
            self.url = Some(content);
        } else if str_eq(property, "site_name") {
            self.site_name = Some(content);
        } else if str_eq(property, "locale") {
            self.locale = Some(content);
        } else if str_eq(property, "locale:alternate") {
            self.locale_alternates.push(content);
            assert(string_views(self.locale_alternates@) =~= string_views(
                old(self).locale_alternates@,
            ).push(content@));
        } else if crate::text::starts_with(property, "image") {
            Self::extend_media("image", property, content, &mut self.images);
        } else if crate::text::starts_with(property, "video") {
            Self::extend_media("video", property, content, &mut self.videos);
        } else if crate::text::starts_with(property, "audio") {
            Self::extend_media("audio", property, content, &mut self.audios);
        } else {
            self.properties.insert(property.to_owned(), content);
        }
    }

    /// Folds one property of the media type `media_type` into its collection:
    /// the bare tag or `tag:url` begins a new object, unless the collection is
    /// full; anything else is applied to the object begun last, if there is
    /// one.
    pub fn extend_media(
        media_type: &str,
        property: &str,
        content: String,
        collection: &mut Vec<OpengraphMedia>,
    )
        ensures
            media_views(final(collection)@) == media_extended(
                media_type@,
                media_views(old(collection)@),
                property@,
                content@,
            ),
    {
        let rest = strip_prefix(property, media_type);
        let begins = match rest {
            Some(t) => t.is_empty() || str_eq(t, ":url"),
            None => false,
        };
        proof {
            match rest {
                Some(t) => {
                    if t@.len() == 0 {
                        assert(property@ =~= media_type@);
                    }
                    if property@ == media_type@ {
                        assert(t@.len() == 0);
                    }
                    if property@ == media_type@ + ":url"@ {
                        assert(t@ =~= (media_type@ + t@).subrange(
                            media_type@.len() as int,
                            property@.len() as int,
                        ));
                        assert(":url"@ =~= (media_type@ + ":url"@).subrange(
                            media_type@.len() as int,
                            property@.len() as int,
                        ));
                    }
                },
                None => {
                    if property@ == media_type@ + ":url"@ {
                        assert((media_type@ + ":url"@).subrange(0, media_type@.len() as int)
                            =~= media_type@);
                    }
                    if property@ == media_type@ {
                        assert(property@.subrange(0, media_type@.len() as int) =~= media_type@);
                    }
                },
            }
            assert(begins == starts_media(media_type@, property@));
        }
        if begins {
            if collection.len() < MAX_MEDIA_ITEMS {
                collection.push(OpengraphMedia::new(content));
                assert(media_views(collection@) =~= media_views(old(collection)@).push(
                    media_with_url(content@),
                ));
            }
            return ;
        }
        if collection.len() == 0 {
            return ;
        }
        let suffix = Self::suffix_of(media_type, property);
        let ghost before = collection@;
        let mut last = collection.pop().unwrap();
        last.apply(suffix, content);
        collection.push(last);
        assert(media_views(collection@) =~= media_views(before).update(
            before.len() - 1,
            media_applied(before.last()@, suffix@, content@),
        ));
    }

    /// The part of `property` after `media_type` and a colon, or the empty
    /// string.
    fn suffix_of<'a>(media_type: &str, property: &'a str) -> (r: &'a str)
        ensures
            r@ == media_suffix(media_type@, property@),
    {
        let tag = Ghost(media_type@);
        proof {
            reveal_strlit("");
            reveal_strlit(":");
            assert(":"@ =~= seq![':']);
        }
        match strip_prefix(property, media_type) {
            Some(t) => match strip_prefix(t, ":") {
                Some(u) => {
                    proof {
                        assert(property@ =~= (tag@ + seq![':']) + u@);
                        assert(property@.subrange(0, (tag@.len() + 1) as int) =~= tag@ + seq![':']);
                        assert(u@ =~= property@.subrange(
                            (tag@.len() + 1) as int,
                            property@.len() as int,
                        ));
                    }
                    u
                },
                None => {
                    proof {
                        if has_prefix(property@, tag@ + seq![':']) {
                            let n = tag@.len() as int;
                            let head = property@.subrange(0, n + 1);
                            assert(head[n] == (tag@ + seq![':'])[n]);
                            assert(t@[0] == property@[n]);
                            assert(t@.subrange(0, 1) =~= seq![':']);
                        }
                    }
                    ""
                },
            },
            None => {
                proof {
                    if has_prefix(property@, tag@ + seq![':']) {
                        let n = tag@.len() as int;
                        assert(property@.subrange(0, n) =~= property@.subrange(0, n + 1).subrange(
                            0,
                            n,
                        ));
                        assert((tag@ + seq![':']).subrange(0, n) =~= tag@);
                    }
                }
                ""
            },
        }
    }

    /// Whether the data states nothing of substance.
    pub fn is_empty(&self) -> (r: bool)
        ensures
            r == is_blank(self@),
    {
        self.og_type.is_none() && self.title.is_none() && self.description.is_none()
            && self.url.is_none() && self.images.len() == 0
    }
}

impl Default for Opengraph {
    fn default() -> (r: Self)
        ensures
            r@ == empty_opengraph(),
    {
        Opengraph::new()
    }
}

} // verus!
