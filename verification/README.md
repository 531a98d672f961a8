# blabla

A bot that bridges chat messages between Discord channels and Telegram chats.

- `src/` is the verified library: the shared message form (`uni_message`), the
  routing of a message along the configured bridges (`message_handler`), the
  settings (`settings`), the rendering of messages for Telegram (`telegram`,
  MarkdownV2 escaping) and the reading of Discord messages (`discord`, mention
  replacement), and text helpers (`text`, decimal formatting).
- `app/` is the program around it: reading `settings.json`, the Discord and
  Telegram clients, and the loop that hands routed messages to the bots.
- `tests/` runs the library on concrete values.
