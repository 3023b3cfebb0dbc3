//! The languages of the user interface, and their translations as bundles
//! of Fluent messages.

use vstd::prelude::*;

verus! {

/// The tag of the English language.
pub const ENG: &'static str = "en-US";

/// The tag of the Russian language.
pub const RUS: &'static str = "ru-RU";

/// The English messages, as a Fluent translation list.
pub const FTL_EN: &'static str = r#"
zoom = Zoom
alphabet-primary = Primary Alphabet
alphabet-secondary = Secondary Alphabet
input = Input
command-add = Add command
command-remove = Remove command
tape-add = Add tape
tape-remove = Remove tape
stop = Stop
start = Start
protocol-save = Save protocol
ok-file-saved = The file was saved successfully
plotting-stop = Stop plotting
plotting-start = Start plotting
label-presets = presets
line-complexity = Complexity
axis-length-of-number = Length of Word
axis-max-steps = Max Steps
err-no-protocol = No protocol
err-no-path-given = No path given
err-failed-to-create-open = Failed to create/open:
err-failed-to-write = Failed to write to
col-state = State
col-cell = Cell
col-dir = Dir
col-protocol = Protocol
btn-change-language = Change Language
label-number-sign = #
"#;

/// The Russian messages, as a Fluent translation list.
pub const FTL_RU: &'static str = r#"
zoom = Масштаб
alphabet-primary = Основной алфавит
alphabet-secondary = Дополнительный алфавит
input = Ввод
command-add = Добавить команду
command-remove = Удалить команду
tape-add = Добавить ленту
tape-remove = Удалить ленту
stop = Стоп
start = Старт
protocol-save = Сохранить протокол
ok-file-saved = Файл был сохранён успешно
plotting-stop = Остановить построение графика
plotting-start = Начать построение графика
label-presets = пресеты
line-complexity = Сложность
axis-length-of-number = Длина слова
axis-max-steps = Максимальное количество шагов
err-no-protocol = Нет протокола
err-no-path-given = Путь не задан
err-failed-to-create-open = Не удалость создать/открыть:
err-failed-to-write = Не удалось записать в
col-state = Сост.
col-cell = Ячейка
col-dir = Направ.
col-protocol = Протокол
btn-change-language = Сменить язык
label-number-sign = №
"#;

#[verifier::external_type_specification]
#[verifier::external_body]
pub struct ExLanguageIdentifier(unic_langid::LanguageIdentifier);

#[verifier::external_type_specification]
#[verifier::external_body]
pub struct ExLanguageIdentifierError(unic_langid::LanguageIdentifierError);

#[verifier::external_type_specification]
#[verifier::external_body]
pub struct ExFluentResource(fluent::FluentResource);

#[verifier::external_type_specification]
#[verifier::external_body]
pub struct ExFluentError(fluent::FluentError);

#[verifier::external_type_specification]
#[verifier::external_body]
pub struct ExIntlLangMemoizer(intl_memoizer::IntlLangMemoizer);

#[verifier::external_type_specification]
#[verifier::external_body]
#[verifier::reject_recursive_types(R)]
#[verifier::reject_recursive_types(M)]
pub struct ExFluentBundle<R, M>(fluent::bundle::FluentBundle<R, M>);

/// The text of the language identifier that `unic_langid` reads from `tag`,
/// as that identifier displays; `None` where it reads none.
pub uninterp spec fn lang_id_of(tag: Seq<char>) -> Option<Seq<char>>;

/// The text that a language identifier displays as.
pub uninterp spec fn lang_id_text(id: unic_langid::LanguageIdentifier) -> Seq<char>;

/// Whether `fluent` parses `source` as a translation list without an error.
pub uninterp spec fn ftl_parses(source: Seq<char>) -> bool;

/// The source text that a Fluent resource was made of and holds.
pub uninterp spec fn resource_source(resource: fluent::FluentResource) -> Seq<char>;

/// The source texts of the resources that a bundle holds, in the order in
/// which they were added.
pub uninterp spec fn bundle_sources(bundle: fluent::FluentBundle<fluent::FluentResource>) -> Seq<
    Seq<char>,
>;

/// The texts of a bundle's locales, in order.
pub uninterp spec fn bundle_locales(bundle: fluent::FluentBundle<fluent::FluentResource>) -> Seq<
    Seq<char>,
>;

/// The names under which a bundle knows a message, a term or a function.
pub uninterp spec fn bundle_ids(bundle: fluent::FluentBundle<fluent::FluentResource>) -> Set<
    Seq<char>,
>;

/// Whether a bundle that knows the names `known` takes in the resource made
/// of `source` without reporting an error: none of the resource's messages
/// and terms bears a name that the bundle knows, or that an earlier one of
/// them bears.
pub uninterp spec fn adds_cleanly(known: Set<Seq<char>>, source: Seq<char>) -> bool;

/// `sys_locale::get_locale`: the locale that the system or the user
/// prefers, if one can be found. It is read from the environment, so nothing
/// is claimed of it.
#[verifier::external_body]
fn system_locale() -> (locale: Option<String>) {
    sys_locale::get_locale()
}

/// `LanguageIdentifier::from_str`, reached through `str::parse`: the parser
/// of `unic_langid`. Whether it succeeds, and with which identifier, is
/// decided by the characters of `tag` alone.
#[verifier::external_body]
fn parse_tag(tag: &str) -> (r: Result<
    unic_langid::LanguageIdentifier,
    unic_langid::LanguageIdentifierError,
>)
    ensures
        match r {
            Ok(id) => lang_id_of(tag@) == Some(lang_id_text(id)),
            Err(_) => lang_id_of(tag@).is_none(),
        },
{
    tag.parse::<unic_langid::LanguageIdentifier>()
}

/// `FluentResource::try_new`: parses a translation list. The resource comes
/// back whether or not the parser met errors, as `Ok` if it met none, and
/// holds the source text it was given.
///
/// The parser can panic on a text with a broken `\u` escape in a quoted
/// string, so only the two built-in lists are let in: they hold no
/// backslash, and the parser reads both to the end.
#[verifier::external_body]
fn parse_resource(source: String) -> (r: Result<fluent::FluentResource, fluent::FluentResource>)
    requires
        source@ == FTL_EN@ || source@ == FTL_RU@,
    ensures
        r.is_ok() == ftl_parses(source@),
        match r {
            Ok(resource) => resource_source(resource) == source@,
            Err(resource) => resource_source(resource) == source@,
        },
{
    match fluent::FluentResource::try_new(source) {
        Ok(resource) => Ok(resource),
        Err((resource, _)) => Err(resource),
    }
}

/// `FluentBundle::new` with one locale: a bundle for that locale that holds
/// no resource yet and knows no name.
#[verifier::external_body]
fn new_bundle(locale: unic_langid::LanguageIdentifier) -> (bundle: fluent::FluentBundle<
    fluent::FluentResource,
>)
    ensures
        bundle_locales(bundle) == seq![lang_id_text(locale)],
        bundle_sources(bundle) == Seq::<Seq<char>>::empty(),
        bundle_ids(bundle) == Set::<Seq<char>>::empty(),
{
    fluent::FluentBundle::new(vec![locale])
}

/// `FluentBundle::add_resource`: the bundle takes the resource in, after
/// those it holds, whether or not the call reports an error, and keeps its
/// locales. It reports an error for each message or term of the resource
/// whose name the bundle already knows, so whether it reports any is decided
/// by the names that the bundle knew and by the resource's source.
#[verifier::external_body]
fn add_resource(
    bundle: &mut fluent::FluentBundle<fluent::FluentResource>,
    resource: fluent::FluentResource,
) -> (r: Result<(), Vec<fluent::FluentError>>)
    ensures
        r.is_ok() == adds_cleanly(bundle_ids(*old(bundle)), resource_source(resource)),
        bundle_locales(*final(bundle)) == bundle_locales(*old(bundle)),
        bundle_sources(*final(bundle)) == bundle_sources(*old(bundle)).push(
            resource_source(resource),
        ),
{
    bundle.add_resource(resource)
}

/// A language of the user interface.
#[derive(Clone, Copy, Debug, PartialEq, Eq, Structural)]
pub enum AppLanguage {
    English,
    Russian,
}

impl AppLanguage {
    /// The language's tag.
    pub open spec fn tag_text(self) -> Seq<char> {
        match self {
            AppLanguage::English => ENG@,
            AppLanguage::Russian => RUS@,
        }
    }

    /// The language's messages, as a Fluent translation list.
    pub open spec fn ftl_text(self) -> Seq<char> {
        match self {
            AppLanguage::English => FTL_EN@,
            AppLanguage::Russian => FTL_RU@,
        }
    }

    /// The language that a tag names: Russian for its own tag, English for
    /// every other text.
    pub open spec fn of_tag(tag: Seq<char>) -> AppLanguage {
        if tag == RUS@ {
            AppLanguage::Russian
        } else {
            AppLanguage::English
        }
    }

    /// The language that a tag names, English where it names none.
    pub fn build_or_default(s: &str) -> (language: AppLanguage)
        ensures
            language == AppLanguage::of_tag(s@),
    {
        if s.to_owned() == RUS.to_owned() {
            AppLanguage::Russian
        } else {
            AppLanguage::English
        }
    }

    /// The language for a locale as the system reports it: English where it
    /// reports none.
    pub fn from_locale(locale: Option<String>) -> (language: AppLanguage)
        ensures
            language == match locale {
                Some(tag) => AppLanguage::of_tag(tag@),
                None => AppLanguage::English,
            },
    {
        match locale {
            Some(tag) => AppLanguage::build_or_default(tag.as_str()),
            None => AppLanguage::English,
        }
    }

    /// The language's tag.
    pub fn tag(&self) -> (tag: &'static str)
        ensures
            tag@ == self.tag_text(),
    {
        match self {
            AppLanguage::English => ENG,
            AppLanguage::Russian => RUS,
        }
    }

    /// The language's tag, as an owned string.
    pub fn to_string(&self) -> (tag: String)
        ensures
            tag@ == self.tag_text(),
    {
        self.tag().to_owned()
    }

    /// The language's messages, as a Fluent translation list.
    pub fn get_ftl(&self) -> (ftl: &'static str)
        ensures
            ftl@ == self.ftl_text(),
    {
        match self {
            AppLanguage::English => FTL_EN,
            AppLanguage::Russian => FTL_RU,
        }
    }

    /// The other language.
    pub fn next(&self) -> (language: AppLanguage)
        ensures
            language != *self,
            *self == AppLanguage::English ==> language == AppLanguage::Russian,
            *self == AppLanguage::Russian ==> language == AppLanguage::English,
    {
        match self {
            AppLanguage::English => AppLanguage::Russian,
            AppLanguage::Russian => AppLanguage::English,
        }
    }

    /// The language's identifier, if its tag reads as one.
    pub fn get_lang_id(&self) -> (id: Option<unic_langid::LanguageIdentifier>)
        ensures
            match id {
                Some(id) => lang_id_of(self.tag_text()) == Some(lang_id_text(id)),
                None => lang_id_of(self.tag_text()).is_none(),
            },
    {
        match parse_tag(self.tag()) {
            Ok(id) => Some(id),
            Err(_) => None,
        }
    }

    /// The language's messages as a Fluent resource, if they parse without
    /// an error.
    pub fn get_res(&self) -> (resource: Option<fluent::FluentResource>)
        ensures
            resource.is_some() == ftl_parses(self.ftl_text()),
            resource.is_some() ==> resource_source(resource.unwrap()) == self.ftl_text(),
    {
        match parse_resource(self.get_ftl().to_owned()) {
            Ok(resource) => Some(resource),
            Err(_) => None,
        }
    }

    /// A bundle for the language: its one locale is what the tag reads as,
    /// and it holds the language's messages and nothing else. There is one
    /// exactly where the tag reads as an identifier, the messages parse, and
    /// a bundle that knows no name yet takes them in without reporting an
    /// error.
    pub fn get_bundle(&self) -> (bundle: Option<fluent::FluentBundle<fluent::FluentResource>>)
        ensures
            bundle.is_some() == (lang_id_of(self.tag_text()).is_some() && ftl_parses(
                self.ftl_text(),
            ) && adds_cleanly(Set::<Seq<char>>::empty(), self.ftl_text())),
            bundle.is_some() ==> bundle_sources(bundle.unwrap()) == seq![self.ftl_text()],
            bundle.is_some() ==> lang_id_of(self.tag_text()) == Some(
                bundle_locales(bundle.unwrap())[0],
            ) && bundle_locales(bundle.unwrap()).len() == 1,
    {
        let id = match self.get_lang_id() {
            Some(id) => id,
            None => {
                return None;
            },
        };
        let resource = match self.get_res() {
            Some(resource) => resource,
            None => {
                return None;
            },
        };
        let mut bundle = new_bundle(id);
        let added = add_resource(&mut bundle, resource);
        assert(bundle_sources(bundle) =~= seq![self.ftl_text()]);
        kept_if_clean(bundle, added)
    }
}

/// The bundle, unless taking in a resource is said to have failed.
pub fn kept_if_clean(
    bundle: fluent::FluentBundle<fluent::FluentResource>,
    added: Result<(), Vec<fluent::FluentError>>,
) -> (kept: Option<fluent::FluentBundle<fluent::FluentResource>>)
    ensures
        kept == (if added.is_ok() {
            Some(bundle)
        } else {
            None
        }),
{
    match added {
        Ok(_) => Some(bundle),
        Err(_) => None,
    }
}

impl Default for AppLanguage {
    /// The language of the system's locale, English where there is none.
    fn default() -> (language: AppLanguage)
        ensures
            language == AppLanguage::English || language == AppLanguage::Russian,
    {
        AppLanguage::from_locale(system_locale())
    }
}

/// A language's own tag names that language.
pub proof fn lemma_tag_names_language(language: AppLanguage)
    ensures
        AppLanguage::of_tag(language.tag_text()) == language,
{
    reveal_strlit("en-US");
    reveal_strlit("ru-RU");
    if language == AppLanguage::English {
        assert(ENG@.len() == 5);
        assert(ENG@[0] == 'e');
        assert(RUS@[0] == 'r');
    }
}

} // verus!
